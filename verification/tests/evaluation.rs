use rust_diff_analyzer::config::{Config, Limits, Weights};
use rust_diff_analyzer::evaluation::{evaluate, summarize, try_summarize, KindCounts, Outcome, Summary};
use rust_diff_analyzer::types::{
    Change, ChangeKind, CodeType, LineSpan, SemanticUnit, SemanticUnitKind, Visibility,
};

fn change(code_type: CodeType, kind: ChangeKind, lines_added: usize, lines_removed: usize) -> Change {
    Change {
        unit: SemanticUnit {
            kind: Some(SemanticUnitKind::Function),
            name: "f".to_string(),
            visibility: Visibility::Public,
            span: LineSpan { start: 1, end: 2 },
            code_type,
        },
        kind,
        lines_added,
        lines_removed,
    }
}

fn sample() -> Vec<Change> {
    vec![
        change(CodeType::Production, ChangeKind::Added, 3, 0),
        change(CodeType::Production, ChangeKind::Modified, 1, 1),
        change(CodeType::Test, ChangeKind::Added, 10, 0),
        change(CodeType::Production, ChangeKind::Removed, 0, 2),
        change(CodeType::BuildScript, ChangeKind::Modified, 2, 2),
    ]
}

fn weights() -> Weights {
    Weights { production: 3, test: 1, test_utility: 5, benchmark: 7, example: 11, build_script: 2 }
}

fn zero() -> KindCounts {
    KindCounts { added: 0, modified: 0, removed: 0 }
}

#[test]
fn summary_counts_and_weighs() {
    let s = summarize(&sample(), &weights());
    assert_eq!(
        s,
        Summary {
            production: KindCounts { added: 1, modified: 1, removed: 1 },
            test: KindCounts { added: 1, modified: 0, removed: 0 },
            test_utility: zero(),
            benchmark: zero(),
            example: zero(),
            build_script: KindCounts { added: 0, modified: 1, removed: 0 },
            weighted_score: 3 * 3 + 3 * 2 + 10 + 3 * 2 + 2 * 4,
        }
    );
    assert_eq!(s.weighted_score, 39);
    assert_eq!(s.count_of(CodeType::Production, ChangeKind::Removed), 1);
    assert_eq!(s.count_of(CodeType::BuildScript, ChangeKind::Modified), 1);
    assert_eq!(s.count_of(CodeType::Example, ChangeKind::Added), 0);
}

#[test]
fn summary_of_nothing_is_zero() {
    let s = summarize(&vec![], &weights());
    assert_eq!(s.weighted_score, 0);
    assert_eq!(s.production, zero());
}

#[test]
fn summary_does_not_depend_on_the_order() {
    let changes = sample();
    let mut reversed = sample();
    reversed.reverse();
    let mut rotated = sample();
    rotated.rotate_left(2);
    let s = summarize(&changes, &weights());
    assert_eq!(summarize(&reversed, &weights()), s);
    assert_eq!(summarize(&rotated, &weights()), s);
}

#[test]
fn summary_that_does_not_fit_is_none() {
    let heavy = Weights { production: usize::MAX, ..weights() };
    assert_eq!(try_summarize(&vec![change(CodeType::Production, ChangeKind::Added, 1, 1)], &heavy), None);
    assert_eq!(
        try_summarize(&vec![change(CodeType::Production, ChangeKind::Added, 1, 0)], &heavy).map(|s| s.weighted_score),
        Some(usize::MAX)
    );
    let many = vec![change(CodeType::Test, ChangeKind::Added, usize::MAX, 1)];
    assert_eq!(try_summarize(&many, &weights()), None);
    let free = Weights { test: 0, ..weights() };
    assert_eq!(try_summarize(&many, &free).map(|s| s.weighted_score), Some(0));
    let two = vec![
        change(CodeType::Test, ChangeKind::Added, usize::MAX, 0),
        change(CodeType::Test, ChangeKind::Added, 1, 0),
    ];
    assert_eq!(try_summarize(&two, &weights()), None);
    assert_eq!(try_summarize(&sample(), &weights()), Some(summarize(&sample(), &weights())));
}

fn summary(added: usize, modified: usize, removed: usize, weighted_score: usize) -> Summary {
    Summary {
        production: KindCounts { added, modified, removed },
        test: KindCounts { added: 50, modified: 50, removed: 50 },
        test_utility: zero(),
        benchmark: zero(),
        example: zero(),
        build_script: zero(),
        weighted_score,
    }
}

#[test]
fn each_limit_is_checked_by_itself() {
    let limits = Limits { max_prod_units: 5, max_weighted_score: 100 };
    let flags = |s: Summary| {
        let o = evaluate(&s, &limits);
        (o.prod_units_exceeded, o.weighted_score_exceeded, o.passed())
    };
    assert_eq!(flags(summary(2, 3, 40, 100)), (false, false, true));
    assert_eq!(flags(summary(3, 3, 0, 100)), (true, false, false));
    assert_eq!(flags(summary(2, 3, 0, 101)), (false, true, false));
    assert_eq!(flags(summary(6, 0, 0, 1000)), (true, true, false));
    assert_eq!(flags(summary(0, 6, 0, 0)), (true, false, false));
    assert_eq!(flags(summary(usize::MAX, usize::MAX, 0, 0)), (true, false, false));
    assert_eq!(
        evaluate(&summary(6, 0, 0, 1000), &limits),
        Outcome { prod_units_exceeded: true, weighted_score_exceeded: true }
    );
}

#[test]
fn default_configuration_is_valid() {
    let config = Config::default();
    assert_eq!(config.limits, Limits { max_prod_units: 30, max_weighted_score: 100 });
    assert_eq!(
        config.weights,
        Weights { production: 3, test: 1, test_utility: 1, benchmark: 1, example: 1, build_script: 1 }
    );
    assert_eq!(Limits::default(), config.limits);
    assert_eq!(Weights::default(), config.weights);
    assert!(config.validate().is_ok());
    assert_eq!(config.weights.weight_of(CodeType::Production), 3);
    assert_eq!(weights().weight_of(CodeType::Example), 11);
    assert_eq!(weights().weight_of(CodeType::BuildScript), 2);
}

#[test]
fn validation_names_the_first_zero_limit() {
    let mut config = Config::default();
    config.limits.max_weighted_score = 0;
    let error = config.validate().unwrap_err();
    assert_eq!(error.field, "limits.max_weighted_score");
    assert_eq!(error.message, "must be greater than 0");
    config.limits.max_prod_units = 0;
    let error = config.validate().unwrap_err();
    assert_eq!(error.field, "limits.max_prod_units");
    assert_eq!(error.describe(), "invalid config field 'limits.max_prod_units': must be greater than 0");
    config.limits.max_weighted_score = 1;
    assert_eq!(config.validate().unwrap_err().field, "limits.max_prod_units");
    config.limits.max_prod_units = 1;
    assert!(config.validate().is_ok());
}
