//! The summary of a change list and its verdict against the limits.

use vstd::prelude::*;

use crate::config::{Limits, Weights};
use crate::types::change::{
    lemma_sum_by_permutation, sum_by, Change, ChangeKind, ChangeView,
};
use crate::types::classification::CodeType;

verus! {

/// How many changes of each kind.
#[derive(Debug, Clone, Copy, PartialEq, Eq, Structural)]
pub struct KindCounts {
    pub added: usize,
    pub modified: usize,
    pub removed: usize,
}

/// The changes counted by purpose and kind, and their weighted score.
#[derive(Debug, Clone, Copy, PartialEq, Eq, Structural)]
pub struct Summary {
    pub production: KindCounts,
    pub test: KindCounts,
    pub test_utility: KindCounts,
    pub benchmark: KindCounts,
    pub example: KindCounts,
    pub build_script: KindCounts,
    pub weighted_score: usize,
}

impl KindCounts {
    /// The count of one kind.
    pub open spec fn of(self, k: ChangeKind) -> nat {
        match k {
            ChangeKind::Added => self.added as nat,
            ChangeKind::Modified => self.modified as nat,
            ChangeKind::Removed => self.removed as nat,
        }
    }
}

impl Summary {
    /// The counts of one purpose.
    pub open spec fn counts(self, t: CodeType) -> KindCounts {
        match t {
            CodeType::Production => self.production,
            CodeType::Test => self.test,
            CodeType::TestUtility => self.test_utility,
            CodeType::Benchmark => self.benchmark,
            CodeType::Example => self.example,
            CodeType::BuildScript => self.build_script,
        }
    }

    /// The number of changes of one purpose and kind.
    pub open spec fn count(self, t: CodeType, k: ChangeKind) -> nat {
        self.counts(t).of(k)
    }

    /// The number of changes of one purpose and kind.
    pub fn count_of(&self, t: CodeType, k: ChangeKind) -> (n: usize)
        ensures
            n == self.count(t, k),
    {
        let c = match t {
            CodeType::Production => self.production,
            CodeType::Test => self.test,
            CodeType::TestUtility => self.test_utility,
            CodeType::Benchmark => self.benchmark,
            CodeType::Example => self.example,
            CodeType::BuildScript => self.build_script,
        };
        match k {
            ChangeKind::Added => c.added,
            ChangeKind::Modified => c.modified,
            ChangeKind::Removed => c.removed,
        }
    }
}

/// One for a change of the purpose `t` and the kind `k`, zero for another.
pub open spec fn is_of(t: CodeType, k: ChangeKind) -> spec_fn(ChangeView) -> nat {
    |c: ChangeView|
        if c.unit.code_type == t && c.kind == k {
            1nat
        } else {
            0nat
        }
}

/// What one change adds to the score: its changed lines times the weight of
/// its purpose.
pub open spec fn cost(weights: Weights) -> spec_fn(ChangeView) -> nat {
    |c: ChangeView| weights.weight(c.unit.code_type) * (c.lines_added + c.lines_removed)
}

/// The score of a change list.
pub open spec fn weighted_score(changes: Seq<ChangeView>, weights: Weights) -> nat {
    sum_by(changes, cost(weights))
}

/// The counts of the changes of one purpose.
pub open spec fn counted(changes: Seq<ChangeView>, t: CodeType) -> KindCounts {
    KindCounts {
        added: sum_by(changes, is_of(t, ChangeKind::Added)) as usize,
        modified: sum_by(changes, is_of(t, ChangeKind::Modified)) as usize,
        removed: sum_by(changes, is_of(t, ChangeKind::Removed)) as usize,
    }
}

/// The summary of a change list.
pub open spec fn summarized(changes: Seq<ChangeView>, weights: Weights) -> Summary {
    Summary {
        production: counted(changes, CodeType::Production),
        test: counted(changes, CodeType::Test),
        test_utility: counted(changes, CodeType::TestUtility),
        benchmark: counted(changes, CodeType::Benchmark),
        example: counted(changes, CodeType::Example),
        build_script: counted(changes, CodeType::BuildScript),
        weighted_score: weighted_score(changes, weights) as usize,
    }
}

/// The summary does not depend on the order of the changes.
pub proof fn lemma_summary_order_independent(
    a: Seq<ChangeView>,
    b: Seq<ChangeView>,
    weights: Weights,
)
    requires
        a.to_multiset() == b.to_multiset(),
    ensures
        summarized(a, weights) == summarized(b, weights),
        weighted_score(a, weights) == weighted_score(b, weights),
        forall|t: CodeType, k: ChangeKind| sum_by(a, is_of(t, k)) == sum_by(b, is_of(t, k)),
{
    lemma_sum_by_permutation(a, b, cost(weights));
    assert forall|t: CodeType, k: ChangeKind| sum_by(a, is_of(t, k)) == sum_by(
        b,
        is_of(t, k),
    ) by {
        lemma_sum_by_permutation(a, b, is_of(t, k));
    }
}

/// A sum over a prefix is at most the sum over the whole.
pub proof fn lemma_sum_by_prefix<T>(s: Seq<T>, f: spec_fn(T) -> nat, i: int)
    requires
        0 <= i <= s.len(),
    ensures
        sum_by(s.take(i), f) <= sum_by(s, f),
    decreases s.len() - i,
{
    if i < s.len() {
        lemma_sum_by_prefix(s, f, i + 1);
        assert(s.take(i + 1).drop_last() =~= s.take(i));
    } else {
        assert(s.take(i) =~= s);
    }
}

fn bump_kind(c: KindCounts, k: ChangeKind) -> (r: KindCounts)
    requires
        c.of(k) < usize::MAX,
    ensures
        forall|k2: ChangeKind| #[trigger]
            r.of(k2) == c.of(k2) + if k2 == k {
                1nat
            } else {
                0nat
            },
{
    match k {
        ChangeKind::Added => KindCounts { added: c.added + 1, ..c },
        ChangeKind::Modified => KindCounts { modified: c.modified + 1, ..c },
        ChangeKind::Removed => KindCounts { removed: c.removed + 1, ..c },
    }
}

fn bump(s: Summary, t: CodeType, k: ChangeKind) -> (r: Summary)
    requires
        s.count(t, k) < usize::MAX,
    ensures
        forall|t2: CodeType, k2: ChangeKind| #[trigger]
            r.count(t2, k2) == s.count(t2, k2) + if t2 == t && k2 == k {
                1nat
            } else {
                0nat
            },
        r.weighted_score == s.weighted_score,
{
    match t {
        CodeType::Production => Summary { production: bump_kind(s.production, k), ..s },
        CodeType::Test => Summary { test: bump_kind(s.test, k), ..s },
        CodeType::TestUtility => Summary { test_utility: bump_kind(s.test_utility, k), ..s },
        CodeType::Benchmark => Summary { benchmark: bump_kind(s.benchmark, k), ..s },
        CodeType::Example => Summary { example: bump_kind(s.example, k), ..s },
        CodeType::BuildScript => Summary { build_script: bump_kind(s.build_script, k), ..s },
    }
}

proof fn lemma_counts_give_summary(s: Summary, changes: Seq<ChangeView>, weights: Weights)
    requires
        forall|t: CodeType, k: ChangeKind| #[trigger] s.count(t, k) == sum_by(changes, is_of(t, k)),
        s.weighted_score == weighted_score(changes, weights),
    ensures
        s == summarized(changes, weights),
{
    assert forall|t: CodeType| #[trigger] s.counts(t) == counted(changes, t) by {
        assert(s.count(t, ChangeKind::Added) == sum_by(changes, is_of(t, ChangeKind::Added)));
        assert(s.count(t, ChangeKind::Modified) == sum_by(changes, is_of(t, ChangeKind::Modified)));
        assert(s.count(t, ChangeKind::Removed) == sum_by(changes, is_of(t, ChangeKind::Removed)));
    }
    assert(s.counts(CodeType::Production) == counted(changes, CodeType::Production));
    assert(s.counts(CodeType::Test) == counted(changes, CodeType::Test));
    assert(s.counts(CodeType::TestUtility) == counted(changes, CodeType::TestUtility));
    assert(s.counts(CodeType::Benchmark) == counted(changes, CodeType::Benchmark));
    assert(s.counts(CodeType::Example) == counted(changes, CodeType::Example));
    assert(s.counts(CodeType::BuildScript) == counted(changes, CodeType::BuildScript));
}

/// Summarizes a change list where its score fits the machine's word, and
/// gives `None` where it does not.
pub fn try_summarize(changes: &Vec<Change>, weights: &Weights) -> (r: Option<Summary>)
    ensures
        r is Some <==> weighted_score(changes.deep_view(), *weights) <= usize::MAX,
        r matches Some(s) ==> s == summarized(changes.deep_view(), *weights),
{
    let ghost all = changes.deep_view();
    let zero = KindCounts { added: 0, modified: 0, removed: 0 };
    let mut s = Summary {
        production: zero,
        test: zero,
        test_utility: zero,
        benchmark: zero,
        example: zero,
        build_script: zero,
        weighted_score: 0,
    };
    let mut i: usize = 0;
    while i < changes.len()
        invariant
            i <= changes.len(),
            all == changes.deep_view(),
            forall|t: CodeType, k: ChangeKind| #[trigger]
                s.count(t, k) == sum_by(all.take(i as int), is_of(t, k)),
            forall|t: CodeType, k: ChangeKind| #[trigger] s.count(t, k) <= i,
            s.weighted_score == weighted_score(all.take(i as int), *weights),
        decreases changes.len() - i,
    {
        let change = &changes[i];
        let ghost c = change@;
        proof {
            assert(all.take(i + 1).drop_last() =~= all.take(i as int));
            assert(all.take(i + 1).last() == c);
            lemma_sum_by_prefix(all, cost(*weights), i + 1);
        }
        let lines = match change.lines_added.checked_add(change.lines_removed) {
            Some(n) => n,
            None => {
                proof {
                    let w = weights.weight(c.unit.code_type);
                    if w > 0 {
                        assert(w * (c.lines_added + c.lines_removed) >= c.lines_added
                            + c.lines_removed) by (nonlinear_arith)
                            requires
                                w >= 1,
                        ;
                    }
                }
                if weights.weight_of(change.unit.code_type) == 0 {
                    0
                } else {
                    return None;
                }
            },
        };
        proof {
            let w = weights.weight(c.unit.code_type);
            if w == 0 {
                assert(w * (c.lines_added + c.lines_removed) == 0) by (nonlinear_arith)
                    requires
                        w == 0,
                ;
                assert(w * lines == 0) by (nonlinear_arith)
                    requires
                        w == 0,
                ;
            }
            assert(cost(*weights)(c) == w * lines);
        }
        let part = match weights.weight_of(change.unit.code_type).checked_mul(lines) {
            Some(n) => n,
            None => {
                return None;
            },
        };
        let score = match s.weighted_score.checked_add(part) {
            Some(n) => n,
            None => {
                return None;
            },
        };
        let ghost before = s;
        proof {
            assert(before.count(c.unit.code_type, c.kind) <= i);
        }
        let bumped = bump(s, change.unit.code_type, change.kind);
        s = Summary { weighted_score: score, ..bumped };
        proof {
            assert forall|t: CodeType, k: ChangeKind| #[trigger]
                s.count(t, k) == sum_by(all.take(i + 1), is_of(t, k)) by {
                assert(before.count(t, k) == sum_by(all.take(i as int), is_of(t, k)));
                assert(s.counts(t) == bumped.counts(t));
                assert(bumped.count(t, k) == before.count(t, k) + if t == c.unit.code_type && k
                    == c.kind {
                    1nat
                } else {
                    0nat
                });
                assert(sum_by(all.take(i + 1), is_of(t, k)) == sum_by(
                    all.take(i as int),
                    is_of(t, k),
                ) + is_of(t, k)(c));
            }
            assert forall|t: CodeType, k: ChangeKind| #[trigger] s.count(t, k) <= i + 1 by {
                assert(before.count(t, k) <= i);
                assert(s.counts(t) == bumped.counts(t));
                assert(bumped.count(t, k) <= before.count(t, k) + 1);
            }
        }
        i += 1;
    }
    proof {
        assert(all.take(i as int) =~= all);
        lemma_counts_give_summary(s, all, *weights);
    }
    Some(s)
}

/// Summarizes a change list: the changes counted by purpose and kind, and
/// the sum over the changes of each one's changed lines times the weight of
/// its purpose.
pub fn summarize(changes: &Vec<Change>, weights: &Weights) -> (s: Summary)
    requires
        weighted_score(changes.deep_view(), *weights) <= usize::MAX,
    ensures
        s == summarized(changes.deep_view(), *weights),
{
    try_summarize(changes, weights).unwrap()
}

/// What the limits say of a summary.
#[derive(Debug, Clone, Copy, PartialEq, Eq, Structural)]
pub struct Outcome {
    /// More production units were added or modified than the limit allows.
    pub prod_units_exceeded: bool,
    /// The weighted score is above its limit.
    pub weighted_score_exceeded: bool,
}

impl Outcome {
    /// No limit is exceeded.
    pub fn passed(&self) -> (b: bool)
        ensures
            b == (!self.prod_units_exceeded && !self.weighted_score_exceeded),
    {
        !self.prod_units_exceeded && !self.weighted_score_exceeded
    }
}

/// The production units that count against the limit: those added and those
/// modified.
pub open spec fn prod_units(summary: Summary) -> nat {
    summary.production.added as nat + summary.production.modified as nat
}

/// Holds a summary against the limits. Each limit is checked by itself.
pub fn evaluate(summary: &Summary, limits: &Limits) -> (o: Outcome)
    ensures
        o.prod_units_exceeded == (prod_units(*summary) > limits.max_prod_units),
        o.weighted_score_exceeded == (summary.weighted_score > limits.max_weighted_score),
{
    let added = summary.production.added;
    let modified = summary.production.modified;
    let prod_units_exceeded = added > limits.max_prod_units || modified > limits.max_prod_units
        - added;
    Outcome {
        prod_units_exceeded,
        weighted_score_exceeded: summary.weighted_score > limits.max_weighted_score,
    }
}

} // verus!
