//! Ordering by first line: a stable sort and what holds of its result.

use vstd::prelude::*;

verus! {

/// Something that starts at a line.
pub trait Positioned: DeepView {
    /// The line that a value starts at.
    spec fn key_of(v: Self::V) -> nat;

    /// The line that this value starts at.
    fn start_line(&self) -> (n: usize)
        ensures
            n == Self::key_of(self.deep_view()),
    ;
}

/// The first index at or after `i` whose item starts behind the line `k`,
/// or the length.
pub open spec fn insert_index<T: Positioned>(s: Seq<T::V>, k: nat, i: int) -> int
    decreases s.len() - i,
{
    if 0 <= i < s.len() && T::key_of(s[i]) <= k {
        insert_index::<T>(s, k, i + 1)
    } else {
        i
    }
}

/// `s` with `x` behind every item that starts at or before the line of `x`
/// and stands before the first that starts later.
pub open spec fn insert_sorted<T: Positioned>(s: Seq<T::V>, x: T::V) -> Seq<T::V> {
    s.insert(insert_index::<T>(s, T::key_of(x), 0), x)
}

/// The items of `s` in the order of their first lines; items that start at
/// the same line keep their order.
pub open spec fn stable_sorted<T: Positioned>(s: Seq<T::V>) -> Seq<T::V>
    decreases s.len(),
{
    if s.len() == 0 {
        s
    } else {
        insert_sorted::<T>(stable_sorted::<T>(s.drop_last()), s.last())
    }
}

/// No item starts before one that stands before it.
pub open spec fn is_sorted<T: Positioned>(s: Seq<T::V>) -> bool {
    forall|i: int, j: int| 0 <= i <= j < s.len() ==> T::key_of(s[i]) <= T::key_of(s[j])
}

/// Where an item is inserted: behind items that start no later, before one
/// that starts later.
pub proof fn lemma_insert_index_bounds<T: Positioned>(s: Seq<T::V>, k: nat, i: int)
    requires
        0 <= i <= s.len(),
    ensures
        i <= insert_index::<T>(s, k, i) <= s.len(),
        forall|j: int| i <= j < insert_index::<T>(s, k, i) ==> T::key_of(s[j]) <= k,
        insert_index::<T>(s, k, i) < s.len() ==> T::key_of(s[insert_index::<T>(s, k, i)]) > k,
    decreases s.len() - i,
{
    if i < s.len() && T::key_of(s[i]) <= k {
        lemma_insert_index_bounds::<T>(s, k, i + 1);
    }
}

/// Inserting into a sorted sequence leaves it sorted.
pub proof fn lemma_insert_sorted<T: Positioned>(s: Seq<T::V>, x: T::V)
    requires
        is_sorted::<T>(s),
    ensures
        is_sorted::<T>(insert_sorted::<T>(s, x)),
        insert_sorted::<T>(s, x).len() == s.len() + 1,
        insert_sorted::<T>(s, x).to_multiset() == s.to_multiset().insert(x),
{
    let k = T::key_of(x);
    let p = insert_index::<T>(s, k, 0);
    lemma_insert_index_bounds::<T>(s, k, 0);
    let r = s.insert(p, x);
    assert forall|i: int, j: int| 0 <= i <= j < r.len() implies T::key_of(r[i]) <= T::key_of(
        r[j],
    ) by {
        if j < p {
            assert(r[i] == s[i] && r[j] == s[j]);
        } else if j == p {
            if i < p {
                assert(r[i] == s[i]);
            }
        } else {
            assert(r[j] == s[j - 1]);
            if i < p {
                assert(r[i] == s[i]);
            } else if i == p {
                assert(T::key_of(s[p]) <= T::key_of(s[j - 1]));
            } else {
                assert(r[i] == s[i - 1]);
            }
        }
    }
    vstd::seq_lib::to_multiset_insert(s, p, x);
}

/// The result of the sort is sorted and holds the same items as often.
pub proof fn lemma_stable_sorted<T: Positioned>(s: Seq<T::V>)
    ensures
        is_sorted::<T>(stable_sorted::<T>(s)),
        stable_sorted::<T>(s).len() == s.len(),
        stable_sorted::<T>(s).to_multiset() == s.to_multiset(),
    decreases s.len(),
{
    if s.len() > 0 {
        lemma_stable_sorted::<T>(s.drop_last());
        lemma_insert_sorted::<T>(stable_sorted::<T>(s.drop_last()), s.last());
        assert(s.drop_last().push(s.last()) =~= s);
        s.drop_last().to_multiset_ensures();
    }
}

/// A sorted sequence is its own sort.
pub proof fn lemma_sorted_is_fixed<T: Positioned>(s: Seq<T::V>)
    requires
        is_sorted::<T>(s),
    ensures
        stable_sorted::<T>(s) == s,
    decreases s.len(),
{
    if s.len() > 0 {
        let front = s.drop_last();
        assert(is_sorted::<T>(front)) by {
            assert forall|i: int, j: int| 0 <= i <= j < front.len() implies T::key_of(front[i])
                <= T::key_of(front[j]) by {
                assert(front[i] == s[i] && front[j] == s[j]);
            }
        }
        lemma_sorted_is_fixed::<T>(front);
        let k = T::key_of(s.last());
        lemma_insert_index_bounds::<T>(front, k, 0);
        let p = insert_index::<T>(front, k, 0);
        if p < front.len() {
            assert(front[p] == s[p]);
            assert(T::key_of(s[p]) <= T::key_of(s[s.len() - 1]));
        }
        assert(front.insert(front.len() as int, s.last()) =~= s);
    }
}

/// Sorts by first line; items that start at the same line keep their order.
pub fn sort_by_start<T: Positioned>(v: Vec<T>) -> (r: Vec<T>)
    ensures
        r.deep_view() == stable_sorted::<T>(v.deep_view()),
{
    let ghost all = v.deep_view();
    let mut rest = v;
    let mut out: Vec<T> = Vec::new();
    let ghost mut done: int = 0;
    proof {
        assert(out.deep_view() =~= stable_sorted::<T>(all.take(0)));
        assert(rest.deep_view() =~= all.skip(0));
        assert(all.len() == rest@.len());
    }
    while rest.len() > 0
        invariant
            0 <= done <= all.len(),
            all.len() == done + rest.len(),
            out.deep_view() == stable_sorted::<T>(all.take(done)),
            rest.deep_view() == all.skip(done),
        decreases rest.len(),
    {
        let ghost rest_before = rest;
        let ghost out_before = out;
        let x = rest.remove(0);
        let k = x.start_line();
        let mut p: usize = 0;
        proof {
            assert(rest_before.deep_view().len() == rest_before@.len());
            assert(all.skip(done).len() == all.len() - done);
            assert(rest_before.deep_view()[0] == x.deep_view());
            assert(all.skip(done)[0] == all[done]);
        }
        while p < out.len() && out[p].start_line() <= k
            invariant
                p <= out.len(),
                k == T::key_of(x.deep_view()),
                insert_index::<T>(out.deep_view(), k as nat, 0) == insert_index::<T>(
                    out.deep_view(),
                    k as nat,
                    p as int,
                ),
            decreases out.len() - p,
        {
            assert(out.deep_view()[p as int] == out[p as int].deep_view());
            p += 1;
        }
        proof {
            if p < out.len() {
                assert(out.deep_view()[p as int] == out[p as int].deep_view());
            }
        }
        out.insert(p, x);
        proof {
            assert(out.deep_view() =~= out_before.deep_view().insert(p as int, x.deep_view()));
            assert(all.take(done + 1).drop_last() =~= all.take(done));
            assert forall|i: int| 0 <= i < rest@.len() implies rest.deep_view()[i] == all[done + 1
                + i] by {
                assert(rest@[i] == rest_before@[i + 1]);
                assert(rest_before.deep_view()[i + 1] == rest_before@[i + 1].deep_view());
                assert(all.skip(done)[i + 1] == all[done + 1 + i]);
            }
            assert(rest.deep_view() =~= all.skip(done + 1));
            done = done + 1;
        }
    }
    proof {
        assert(all.take(done) =~= all);
    }
    out
}

/// What holds of every item holds of every item of the sort's result.
pub proof fn lemma_sorted_keeps<T: Positioned>(s: Seq<T::V>, holds: spec_fn(T::V) -> bool)
    requires
        forall|i: int| 0 <= i < s.len() ==> holds(#[trigger] s[i]),
    ensures
        forall|k: int|
            0 <= k < stable_sorted::<T>(s).len() ==> holds(#[trigger] stable_sorted::<T>(s)[k]),
    decreases s.len(),
{
    if s.len() > 0 {
        let front = s.drop_last();
        assert forall|i: int| 0 <= i < front.len() implies holds(#[trigger] front[i]) by {
            assert(front[i] == s[i]);
        }
        lemma_sorted_keeps::<T>(front, holds);
        lemma_stable_sorted::<T>(front);
        let before = stable_sorted::<T>(front);
        let p = insert_index::<T>(before, T::key_of(s.last()), 0);
        lemma_insert_index_bounds::<T>(before, T::key_of(s.last()), 0);
        let after = before.insert(p, s.last());
        assert forall|k: int| 0 <= k < after.len() implies holds(#[trigger] after[k]) by {
            if k < p {
                assert(after[k] == before[k]);
            } else if k == p {
                assert(after[k] == s[s.len() - 1]);
            } else {
                assert(after[k] == before[k - 1]);
            }
        }
    }
}

proof fn lemma_insert_index_alike<T: Positioned>(a: Seq<T::V>, b: Seq<T::V>, k: nat, i: int)
    requires
        a.len() == b.len(),
        forall|j: int| 0 <= j < a.len() ==> T::key_of(#[trigger] a[j]) == T::key_of(b[j]),
    ensures
        insert_index::<T>(a, k, i) == insert_index::<T>(b, k, i),
    decreases a.len() - i,
{
    if 0 <= i < a.len() && T::key_of(a[i]) <= k {
        lemma_insert_index_alike::<T>(a, b, k, i + 1);
    }
}

/// Two sequences whose items are alike place by place, where items that are
/// alike start at the same line, are sorted alike: the results are alike
/// place by place too.
pub proof fn lemma_sorted_alike<T: Positioned>(
    a: Seq<T::V>,
    b: Seq<T::V>,
    alike: spec_fn(T::V, T::V) -> bool,
)
    requires
        a.len() == b.len(),
        forall|i: int| 0 <= i < a.len() ==> alike(#[trigger] a[i], b[i]),
        forall|x: T::V, y: T::V| #[trigger] alike(x, y) ==> T::key_of(x) == T::key_of(y),
    ensures
        stable_sorted::<T>(a).len() == a.len(),
        stable_sorted::<T>(b).len() == a.len(),
        forall|k: int|
            0 <= k < a.len() ==> alike(
                #[trigger] stable_sorted::<T>(a)[k],
                stable_sorted::<T>(b)[k],
            ),
    decreases a.len(),
{
    lemma_stable_sorted::<T>(a);
    lemma_stable_sorted::<T>(b);
    if a.len() > 0 {
        let fa = a.drop_last();
        let fb = b.drop_last();
        assert forall|i: int| 0 <= i < fa.len() implies alike(#[trigger] fa[i], fb[i]) by {
            assert(fa[i] == a[i] && fb[i] == b[i]);
            assert(alike(a[i], b[i]));
        }
        lemma_sorted_alike::<T>(fa, fb, alike);
        let sa = stable_sorted::<T>(fa);
        let sb = stable_sorted::<T>(fb);
        let x = a.last();
        let y = b.last();
        assert(alike(a[a.len() - 1], b[a.len() - 1]));
        let k = T::key_of(x);
        assert forall|j: int| 0 <= j < sa.len() implies T::key_of(#[trigger] sa[j]) == T::key_of(
            sb[j],
        ) by {
            assert(alike(sa[j], sb[j]));
        }
        lemma_insert_index_alike::<T>(sa, sb, k, 0);
        lemma_insert_index_bounds::<T>(sa, k, 0);
        let p = insert_index::<T>(sa, k, 0);
        let ra = sa.insert(p, x);
        let rb = sb.insert(p, y);
        assert forall|j: int| 0 <= j < a.len() implies alike(#[trigger] ra[j], rb[j]) by {
            if j < p {
                assert(ra[j] == sa[j] && rb[j] == sb[j]);
                assert(alike(sa[j], sb[j]));
            } else if j == p {
                assert(ra[j] == x && rb[j] == y);
            } else {
                assert(ra[j] == sa[j - 1] && rb[j] == sb[j - 1]);
                assert(alike(sa[j - 1], sb[j - 1]));
            }
        }
    }
}

} // verus!
