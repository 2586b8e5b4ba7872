use rust_diff_analyzer::classifier::{classify, path_has_directory, path_is_build_script, Annotation};
use rust_diff_analyzer::order::sort_by_start;
use rust_diff_analyzer::text::{chars_of, lines_of, push_decimal, read_number, string_of};
use rust_diff_analyzer::types::{
    AnalysisResult, Change, ChangeKind, CodeType, LineSpan, SemanticUnit, SemanticUnitKind, Visibility,
};
use rust_diff_analyzer::{
    ConfigError, DiffParseError, FileReadError, IoError, LimitExceededError, OutputError, ParseError,
};

fn chars(s: &str) -> Vec<char> {
    s.chars().collect()
}

#[test]
fn code_type_labels() {
    assert_eq!(CodeType::Production.as_str(), "production");
    assert_eq!(CodeType::Test.as_str(), "test");
    assert_eq!(CodeType::TestUtility.as_str(), "test_utility");
    assert_eq!(CodeType::Benchmark.as_str(), "benchmark");
    assert_eq!(CodeType::Example.as_str(), "example");
    assert_eq!(CodeType::BuildScript.as_str(), "build_script");
}

#[test]
fn code_type_groups() {
    assert!(CodeType::Production.is_production());
    assert!(!CodeType::Test.is_production());
    assert!(!CodeType::BuildScript.is_production());
    assert!(CodeType::Test.is_test_related());
    assert!(CodeType::TestUtility.is_test_related());
    assert!(CodeType::Benchmark.is_test_related());
    assert!(!CodeType::Production.is_test_related());
    assert!(!CodeType::Example.is_test_related());
    assert!(!CodeType::BuildScript.is_test_related());
}

#[test]
fn line_spans() {
    assert_eq!(LineSpan::new(3, 5), Some(LineSpan { start: 3, end: 5 }));
    assert_eq!(LineSpan::new(4, 4), Some(LineSpan { start: 4, end: 4 }));
    assert_eq!(LineSpan::new(0, 4), None);
    assert_eq!(LineSpan::new(5, 4), None);
    let span = LineSpan { start: 3, end: 5 };
    assert!(span.contains(3) && span.contains(5) && !span.contains(2) && !span.contains(6));
    assert!(span.overlaps(&LineSpan { start: 5, end: 9 }));
    assert!(span.overlaps(&LineSpan { start: 1, end: 3 }));
    assert!(!span.overlaps(&LineSpan { start: 6, end: 9 }));
    assert!(!span.overlaps(&LineSpan { start: 1, end: 2 }));
    assert!(span.contains_span(&LineSpan { start: 4, end: 5 }));
    assert!(span.contains_span(&span));
    assert!(!span.contains_span(&LineSpan { start: 4, end: 6 }));
}

#[test]
fn error_texts() {
    let e = ParseError::new("src/a.rs".to_string(), "unexpected token".to_string());
    assert_eq!((e.path.as_str(), e.message.as_str()), ("src/a.rs", "unexpected token"));
    assert_eq!(e.describe(), "failed to parse 'src/a.rs': unexpected token");
    let e = ConfigError::new("c.toml".to_string(), "bad".to_string());
    assert_eq!((e.path.as_str(), e.message.as_str()), ("c.toml", "bad"));
    assert_eq!(e.describe(), "failed to parse config 'c.toml': bad");
    assert_eq!(DiffParseError { message: "m".to_string() }.describe(), "failed to parse diff: m");
    assert_eq!(
        OutputError { format: "json".to_string(), message: "m".to_string() }.describe(),
        "output error for format 'json': m"
    );
    assert_eq!(
        LimitExceededError { limit_type: "max_prod_units".to_string(), actual: 31, maximum: 30 }.describe(),
        "limit exceeded for 'max_prod_units': 31 > 30"
    );
    let source = std::io::Error::new(std::io::ErrorKind::NotFound, "gone");
    let e = FileReadError::new("x.rs".to_string(), source);
    assert_eq!(e.path, "x.rs");
    assert_eq!(e.source.kind(), std::io::ErrorKind::NotFound);
    assert_eq!(e.describe(), "failed to read file 'x.rs': gone");
    let e = IoError(std::io::Error::new(std::io::ErrorKind::Other, "broken pipe"));
    assert_eq!(e.describe(), "io error: broken pipe");
}

#[test]
fn text_helpers() {
    assert_eq!(chars_of("añb"), vec!['a', 'ñ', 'b']);
    assert_eq!(string_of(&chars("hello"), 1, 4), "ell");
    assert_eq!(read_number(&chars("x120,"), 1), Some((120, 4)));
    assert_eq!(read_number(&chars("x120,"), 0), None);
    assert_eq!(read_number(&chars("18446744073709551615"), 0), Some((usize::MAX, 20)));
    assert_eq!(read_number(&chars("18446744073709551616"), 0), None);
    let mut s = String::from("n=");
    push_decimal(&mut s, 0);
    push_decimal(&mut s, 9075);
    assert_eq!(s, "n=09075");
    let lines: Vec<String> = lines_of(&chars("a\r\nb\n\nc")).into_iter().map(|l| l.into_iter().collect()).collect();
    assert_eq!(lines, vec!["a", "b", "", "c"]);
    assert_eq!(lines_of(&chars("a\n")), vec![vec!['a']]);
    assert_eq!(lines_of(&chars("")), Vec::<Vec<char>>::new());
    assert_eq!(lines_of(&chars("\n")), vec![Vec::<char>::new()]);
}

#[test]
fn paths_and_purposes() {
    assert!(path_is_build_script(&chars("build.rs")));
    assert!(path_is_build_script(&chars("crates/x/build.rs")));
    assert!(!path_is_build_script(&chars("src/rebuild.rs")));
    assert!(!path_is_build_script(&chars("build.rs/x")));
    assert!(path_has_directory(&chars("benches/a.rs"), "benches"));
    assert!(path_has_directory(&chars("crates/x/benches/a.rs"), "benches"));
    assert!(!path_has_directory(&chars("mybenches/a.rs"), "benches"));
    assert!(!path_has_directory(&chars("benchess/a.rs"), "benches"));
    assert!(!path_has_directory(&chars("src/benches"), "benches"));
    let at = |own: Vec<Annotation>, around: Vec<Annotation>, modules: Vec<&str>, path: &str| {
        classify(&own, &around, &modules.into_iter().map(chars).collect(), &chars(path))
    };
    assert_eq!(at(vec![], vec![], vec![], "src/lib.rs"), CodeType::Production);
    assert_eq!(at(vec![Annotation::Test], vec![], vec!["tests"], "benches/build.rs"), CodeType::BuildScript);
    assert_eq!(at(vec![Annotation::Test], vec![], vec![], "examples/benches/a.rs"), CodeType::Benchmark);
    assert_eq!(at(vec![Annotation::TestOnly], vec![], vec![], "examples/a.rs"), CodeType::Example);
    assert_eq!(at(vec![Annotation::Other, Annotation::Test], vec![], vec![], "src/a.rs"), CodeType::Test);
    assert_eq!(at(vec![], vec![Annotation::TestOnly], vec!["m"], "src/a.rs"), CodeType::Test);
    assert_eq!(at(vec![Annotation::TestOnly], vec![], vec![], "src/a.rs"), CodeType::Test);
    assert_eq!(at(vec![], vec![Annotation::Test], vec![], "src/a.rs"), CodeType::Production);
    assert_eq!(at(vec![], vec![], vec!["a", "tests"], "src/a.rs"), CodeType::TestUtility);
    assert_eq!(at(vec![], vec![], vec!["test", "b"], "src/a.rs"), CodeType::TestUtility);
    assert_eq!(at(vec![], vec![], vec!["testing"], "src/a.rs"), CodeType::Production);
    assert_eq!(at(vec![], vec![], vec![], "tests/it.rs"), CodeType::TestUtility);
    assert_eq!(at(vec![Annotation::Test], vec![], vec![], "tests/it.rs"), CodeType::Test);
}

fn unit(name: &str, start: usize) -> SemanticUnit {
    SemanticUnit {
        kind: Some(SemanticUnitKind::Function),
        name: name.to_string(),
        visibility: Visibility::Private,
        span: LineSpan { start, end: start + 1 },
        code_type: CodeType::Production,
    }
}

#[test]
fn sort_keeps_the_order_of_ties() {
    let units = vec![unit("c", 9), unit("a1", 2), unit("b", 5), unit("a2", 2), unit("z", 1), unit("a3", 2)];
    let sorted: Vec<String> = sort_by_start(units).into_iter().map(|u| u.name).collect();
    assert_eq!(sorted, vec!["z", "a1", "a2", "a3", "b", "c"]);
    assert!(sort_by_start(Vec::<SemanticUnit>::new()).is_empty());
    let copy = unit("x", 3).duplicate();
    assert_eq!(copy, unit("x", 3));
}

#[test]
fn results_keep_the_file_of_each_change() {
    let change = |name: &str| Change { unit: unit(name, 1), kind: ChangeKind::Added, lines_added: 2, lines_removed: 0 };
    let mut result = AnalysisResult::new();
    assert!(result.changes.is_empty() && result.sources.is_empty());
    result.add_file("a.rs", vec![change("one"), change("two")]);
    result.add_file("b.rs", vec![]);
    result.add_file("c.rs", vec![change("three")]);
    let names: Vec<&str> = result.changes.iter().map(|c| c.unit.name.as_str()).collect();
    assert_eq!(names, vec!["one", "two", "three"]);
    assert_eq!(result.sources, vec!["a.rs", "a.rs", "c.rs"]);
}
