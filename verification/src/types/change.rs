use vstd::prelude::*;

use crate::types::semantic_unit::{SemanticUnit, SemanticUnitView};

verus! {

/// What happened to a unit.
#[derive(Debug, Clone, Copy, PartialEq, Eq, Hash, Structural)]
pub enum ChangeKind {
    Added,
    Modified,
    Removed,
}

/// A unit that a diff touches, with the lines that the diff adds and removes
/// inside the unit's span.
#[derive(Debug, Clone, PartialEq, Eq)]
pub struct Change {
    pub unit: SemanticUnit,
    pub kind: ChangeKind,
    pub lines_added: usize,
    pub lines_removed: usize,
}

/// The mathematical value of a [`Change`].
pub struct ChangeView {
    pub unit: SemanticUnitView,
    pub kind: ChangeKind,
    pub lines_added: nat,
    pub lines_removed: nat,
}

impl View for Change {
    type V = ChangeView;

    open spec fn view(&self) -> ChangeView {
        ChangeView {
            unit: self.unit@,
            kind: self.kind,
            lines_added: self.lines_added as nat,
            lines_removed: self.lines_removed as nat,
        }
    }
}

impl DeepView for Change {
    type V = ChangeView;

    open spec fn deep_view(&self) -> ChangeView {
        self@
    }
}

impl crate::order::Positioned for Change {
    open spec fn key_of(v: ChangeView) -> nat {
        v.unit.span.start as nat
    }

    fn start_line(&self) -> (n: usize) {
        self.unit.span.start
    }
}

/// The sum of `f` over the items of `s`.
pub open spec fn sum_by<T>(s: Seq<T>, f: spec_fn(T) -> nat) -> nat
    decreases s.len(),
{
    if s.len() == 0 {
        0
    } else {
        sum_by(s.drop_last(), f) + f(s.last())
    }
}

/// The sum over a sequence is the sum over the sequence without one item,
/// and that item's part.
pub proof fn lemma_sum_by_remove<T>(s: Seq<T>, f: spec_fn(T) -> nat, j: int)
    requires
        0 <= j < s.len(),
    ensures
        sum_by(s, f) == sum_by(s.remove(j), f) + f(s[j]),
    decreases s.len(),
{
    if j == s.len() - 1 {
        assert(s.remove(j) =~= s.drop_last());
    } else {
        lemma_sum_by_remove(s.drop_last(), f, j);
        assert(s.remove(j).drop_last() =~= s.drop_last().remove(j));
        assert(s.remove(j).last() == s.last());
    }
}

/// The sum over two sequences is the sum of their sums.
pub proof fn lemma_sum_by_concat<T>(a: Seq<T>, b: Seq<T>, f: spec_fn(T) -> nat)
    ensures
        sum_by(a + b, f) == sum_by(a, f) + sum_by(b, f),
    decreases b.len(),
{
    if b.len() == 0 {
        assert(a + b =~= a);
    } else {
        lemma_sum_by_concat(a, b.drop_last(), f);
        assert((a + b).drop_last() =~= a + b.drop_last());
        assert((a + b).last() == b.last());
    }
}

/// A sum does not depend on the order of the items: two sequences that hold
/// the same items equally often have the same sum.
pub proof fn lemma_sum_by_permutation<T>(a: Seq<T>, b: Seq<T>, f: spec_fn(T) -> nat)
    requires
        a.to_multiset() == b.to_multiset(),
    ensures
        sum_by(a, f) == sum_by(b, f),
    decreases a.len(),
{
    a.to_multiset_ensures();
    b.to_multiset_ensures();
    if a.len() == 0 {
        assert(b.len() == 0);
    } else {
        let x = a.last();
        assert(a.contains(x));
        assert(b.to_multiset().count(x) > 0);
        assert(b.contains(x));
        let j = choose|j: int| 0 <= j < b.len() && b[j] == x;
        let a1 = a.drop_last();
        let b1 = b.remove(j);
        assert(a1 =~= a.remove(a.len() - 1));
        assert(a1.to_multiset() =~= b1.to_multiset());
        lemma_sum_by_permutation(a1, b1, f);
        lemma_sum_by_remove(b, f, j);
    }
}


/// A sum over parts that are zero is zero.
pub proof fn lemma_sum_by_zero<T>(s: Seq<T>, f: spec_fn(T) -> nat)
    requires
        forall|i: int| 0 <= i < s.len() ==> f(#[trigger] s[i]) == 0,
    ensures
        sum_by(s, f) == 0,
    decreases s.len(),
{
    if s.len() > 0 {
        assert forall|i: int| 0 <= i < s.drop_last().len() implies f(#[trigger] s.drop_last()[i])
            == 0 by {
            assert(s.drop_last()[i] == s[i]);
        }
        lemma_sum_by_zero(s.drop_last(), f);
    }
}

/// Where `h` is the sum of `f` and `g` on every item, so are the sums.
pub proof fn lemma_sum_by_pointwise<T>(
    s: Seq<T>,
    f: spec_fn(T) -> nat,
    g: spec_fn(T) -> nat,
    h: spec_fn(T) -> nat,
)
    requires
        forall|i: int| 0 <= i < s.len() ==> h(#[trigger] s[i]) == f(s[i]) + g(s[i]),
    ensures
        sum_by(s, h) == sum_by(s, f) + sum_by(s, g),
    decreases s.len(),
{
    if s.len() > 0 {
        assert forall|i: int| 0 <= i < s.drop_last().len() implies h(#[trigger] s.drop_last()[i])
            == f(s.drop_last()[i]) + g(s.drop_last()[i]) by {
            assert(s.drop_last()[i] == s[i]);
        }
        lemma_sum_by_pointwise(s.drop_last(), f, g, h);
    }
}

/// The added lines of a change.
pub open spec fn added_lines() -> spec_fn(ChangeView) -> nat {
    |c: ChangeView| c.lines_added
}

/// The removed lines of a change.
pub open spec fn removed_lines() -> spec_fn(ChangeView) -> nat {
    |c: ChangeView| c.lines_removed
}


/// The changes of an analysis over several files, in the order in which the
/// files were added, each with the path of the file that it was found in.
#[derive(Debug, Clone, PartialEq, Eq)]
pub struct AnalysisResult {
    pub changes: Vec<Change>,
    /// The path of the file of each change: as long as `changes`.
    pub sources: Vec<String>,
}

impl AnalysisResult {
    /// Every change has its source.
    pub open spec fn well_formed(self) -> bool {
        self.sources.len() == self.changes.len()
    }

    /// The result of an analysis of no file.
    pub fn new() -> (r: AnalysisResult)
        ensures
            r.changes@.len() == 0,
            r.sources@.len() == 0,
            r.well_formed(),
    {
        AnalysisResult { changes: Vec::new(), sources: Vec::new() }
    }

    /// Adds the changes of one file, in their order, behind those that are
    /// there.
    pub fn add_file(&mut self, path: &str, changes: Vec<Change>)
        requires
            old(self).well_formed(),
        ensures
            final(self).well_formed(),
            final(self).changes.deep_view() == old(self).changes.deep_view() + changes.deep_view(),
            final(self).sources@.len() == old(self).sources@.len() + changes@.len(),
            forall|i: int|
                0 <= i < old(self).sources@.len() ==> (#[trigger] final(self).sources@[i])@ == old(
                    self,
                ).sources@[i]@,
            forall|i: int|
                old(self).sources@.len() <= i < final(self).sources@.len() ==> (
                #[trigger] final(self).sources@[i])@ == path@,
    {
        let ghost before = *self;
        let ghost added = changes;
        let mut rest = changes;
        let n = rest.len();
        self.changes.append(&mut rest);
        proof {
            assert(self.changes.deep_view() =~= before.changes.deep_view() + added.deep_view());
        }
        let mut i: usize = 0;
        while i < n
            invariant
                i <= n,
                n == added@.len(),
                self.changes@.len() == before.changes@.len() + n,
                before.sources@.len() == before.changes@.len(),
                self.changes.deep_view() == before.changes.deep_view() + added.deep_view(),
                self.sources@.len() == before.sources@.len() + i,
                forall|k: int|
                    0 <= k < before.sources@.len() ==> (#[trigger] self.sources@[k])@
                        == before.sources@[k]@,
                forall|k: int|
                    before.sources@.len() <= k < self.sources@.len() ==> (
                    #[trigger] self.sources@[k])@ == path@,
            decreases n - i,
        {
            self.sources.push(path.to_owned());
            i += 1;
        }
    }
}

} // verus!
