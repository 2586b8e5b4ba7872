use vstd::prelude::*;

use crate::classifier::{classify, code_type_of, Annotation};
use crate::git::diff_parser::{FileDiff, FileDiffView};
use crate::git::hunk::{Hunk, HunkLine, HunkLineView, HunkView, LineType};
use crate::order::{sort_by_start, stable_sorted};
use crate::text::{chars_of, lemma_deep_view_push, views_of};
use crate::types::change::{lemma_sum_by_pointwise, lemma_sum_by_zero, sum_by, Change, ChangeKind, ChangeView};
use crate::types::classification::CodeType;
use crate::types::semantic_unit::{LineSpan, SemanticUnit, SemanticUnitView, Visibility};

verus! {

/// The body lines of all hunks, in order.
pub open spec fn all_lines(hunks: Seq<HunkView>) -> Seq<HunkLineView>
    decreases hunks.len(),
{
    if hunks.len() == 0 {
        Seq::empty()
    } else {
        all_lines(hunks.drop_last()) + hunks.last().lines
    }
}

/// The line has the type `t` and stands, on the new side, in the span. For a
/// removed line the new side's number is that of the line before which it
/// was removed.
pub open spec fn lies_in(line: HunkLineView, t: LineType, span: LineSpan) -> bool {
    line.line_type == t && span.holds(line.new_line)
}

/// How many of `lines` have the type `t` and stand in the span.
pub open spec fn count_in(lines: Seq<HunkLineView>, t: LineType, span: LineSpan) -> nat
    decreases lines.len(),
{
    if lines.len() == 0 {
        0
    } else {
        count_in(lines.drop_last(), t, span) + if lies_in(lines.last(), t, span) {
            1nat
        } else {
            0nat
        }
    }
}

/// The new file's line `n` is an added line.
pub open spec fn is_added_line(lines: Seq<HunkLineView>, n: nat) -> bool {
    exists|i: int|
        0 <= i < lines.len() && (#[trigger] lines[i]).line_type == LineType::Added
            && lines[i].new_line == n
}

/// Every line of the span is an added line.
pub open spec fn covered(lines: Seq<HunkLineView>, span: LineSpan) -> bool {
    forall|n: nat| span.holds(n) ==> #[trigger] is_added_line(lines, n)
}

/// The diff adds or removes a line in the span.
pub open spec fn touched(lines: Seq<HunkLineView>, span: LineSpan) -> bool {
    count_in(lines, LineType::Added, span) + count_in(lines, LineType::Removed, span) > 0
}

/// A touched unit is added where each of its lines is an added line and
/// nothing was removed inside it; else it was there before and is modified.
pub open spec fn change_kind(lines: Seq<HunkLineView>, span: LineSpan) -> ChangeKind {
    if covered(lines, span) && count_in(lines, LineType::Removed, span) == 0 {
        ChangeKind::Added
    } else {
        ChangeKind::Modified
    }
}

/// The change of a touched unit: only the lines inside its own span count.
pub open spec fn unit_change(lines: Seq<HunkLineView>, unit: SemanticUnitView) -> ChangeView {
    ChangeView {
        unit,
        kind: change_kind(lines, unit.span),
        lines_added: count_in(lines, LineType::Added, unit.span),
        lines_removed: count_in(lines, LineType::Removed, unit.span),
    }
}

/// The changes of the touched units, in the units' order.
pub open spec fn unit_changes(lines: Seq<HunkLineView>, units: Seq<SemanticUnitView>) -> Seq<
    ChangeView,
>
    decreases units.len(),
{
    if units.len() == 0 {
        Seq::empty()
    } else {
        let before = unit_changes(lines, units.drop_last());
        if touched(lines, units.last().span) {
            before.push(unit_change(lines, units.last()))
        } else {
            before
        }
    }
}

/// Some unit's span holds the line `n`.
pub open spec fn held(units: Seq<SemanticUnitView>, n: nat) -> bool {
    exists|k: int| 0 <= k < units.len() && (#[trigger] units[k]).span.holds(n)
}

/// A removed line at whose place no unit stands.
pub open spec fn orphan(line: HunkLineView, units: Seq<SemanticUnitView>) -> bool {
    line.line_type == LineType::Removed && !held(units, line.new_line)
}

/// The first index at or after `i` whose line is no orphan, or the length.
pub open spec fn run_end(lines: Seq<HunkLineView>, units: Seq<SemanticUnitView>, i: int) -> int
    decreases lines.len() - i,
{
    if 0 <= i < lines.len() && orphan(lines[i], units) {
        run_end(lines, units, i + 1)
    } else {
        i
    }
}

/// No added line stands directly before `lines[i..j]` or directly behind it:
/// the lines were removed, not replaced.
pub open spec fn is_pure(lines: Seq<HunkLineView>, i: int, j: int) -> bool {
    &&& i <= 0 || lines[i - 1].line_type != LineType::Added
    &&& j >= lines.len() || lines[j].line_type != LineType::Added
}

/// What stands for the removed lines `lines[i..j]`: a unit without kind and
/// name over the old file's lines, with the purpose that the path alone gives.
pub open spec fn block_change(lines: Seq<HunkLineView>, i: int, j: int, path: Seq<char>) -> ChangeView {
    ChangeView {
        unit: SemanticUnitView {
            kind: None,
            name: Seq::empty(),
            visibility: Visibility::Private,
            span: LineSpan {
                start: lines[i].old_line as usize,
                end: lines[j - 1].old_line as usize,
            },
            code_type: code_type_of(Seq::empty(), Seq::empty(), Seq::empty(), path),
        },
        kind: ChangeKind::Removed,
        lines_added: 0,
        lines_removed: (j - i) as nat,
    }
}

/// The removed blocks of one hunk's body from index `i` on: each longest
/// run of orphans that is pure, in order.
pub open spec fn blocks_from(
    lines: Seq<HunkLineView>,
    units: Seq<SemanticUnitView>,
    path: Seq<char>,
    i: int,
) -> Seq<ChangeView>
    decreases lines.len() - i,
{
    if i < 0 || i >= lines.len() {
        Seq::empty()
    } else if !orphan(lines[i], units) {
        blocks_from(lines, units, path, i + 1)
    } else {
        let j = run_end(lines, units, i);
        if j <= i || j > lines.len() {
            Seq::empty()
        } else if is_pure(lines, i, j) {
            seq![block_change(lines, i, j, path)] + blocks_from(lines, units, path, j)
        } else {
            blocks_from(lines, units, path, j)
        }
    }
}

/// The removed blocks of all hunks, in order.
pub open spec fn removed_blocks(
    hunks: Seq<HunkView>,
    units: Seq<SemanticUnitView>,
    path: Seq<char>,
) -> Seq<ChangeView>
    decreases hunks.len(),
{
    if hunks.len() == 0 {
        Seq::empty()
    } else {
        removed_blocks(hunks.drop_last(), units, path) + blocks_from(
            hunks.last().lines,
            units,
            path,
            0,
        )
    }
}

/// The changes that a file's diff makes to the file's units, before they
/// are put in order: the touched units, then the removed blocks.
pub open spec fn found_changes(diff: FileDiffView, units: Seq<SemanticUnitView>) -> Seq<ChangeView> {
    unit_changes(all_lines(diff.hunks), units) + removed_blocks(diff.hunks, units, diff.new_path)
}

/// The changes that a file's diff makes to the file's units, ordered by the
/// first line of each span. A binary entry and one without hunks make none.
///
/// The units are those of the new version, so every line is placed on the
/// new side: an added line at its own number, a removed line at the number
/// of the line before which it was removed. The old side's numbers of
/// removed lines serve only as the span of a change without a unit.
pub open spec fn mapped(diff: FileDiffView, units: Seq<SemanticUnitView>) -> Seq<ChangeView> {
    if diff.is_binary || diff.hunks.len() == 0 {
        Seq::empty()
    } else {
        stable_sorted::<Change>(found_changes(diff, units))
    }
}

/// No more lines are counted than there are.
pub proof fn lemma_count_in_bound(lines: Seq<HunkLineView>, t: LineType, span: LineSpan)
    ensures
        count_in(lines, t, span) <= lines.len(),
    decreases lines.len(),
{
    if lines.len() > 0 {
        lemma_count_in_bound(lines.drop_last(), t, span);
    }
}

/// A span's count is the sum of the counts of its two parts.
pub proof fn lemma_count_in_split(
    lines: Seq<HunkLineView>,
    t: LineType,
    start: usize,
    middle: usize,
    end: usize,
)
    requires
        start <= middle < end,
    ensures
        count_in(lines, t, LineSpan { start, end }) == count_in(
            lines,
            t,
            LineSpan { start, end: middle },
        ) + count_in(lines, t, LineSpan { start: (middle + 1) as usize, end }),
    decreases lines.len(),
{
    if lines.len() > 0 {
        lemma_count_in_split(lines.drop_last(), t, start, middle, end);
    }
}

/// A line of the type `t` at the new side's line `n` is counted at `n`.
pub proof fn lemma_count_in_point(lines: Seq<HunkLineView>, t: LineType, i: int, n: usize)
    requires
        0 <= i < lines.len(),
        lines[i].line_type == t,
        lines[i].new_line == n,
    ensures
        count_in(lines, t, LineSpan { start: n, end: n }) >= 1,
    decreases lines.len(),
{
    if i < lines.len() - 1 {
        lemma_count_in_point(lines.drop_last(), t, i, n);
    }
}

/// A span of which every line is an added line holds at least as many added
/// lines as it is long.
pub proof fn lemma_covered_count(lines: Seq<HunkLineView>, start: usize, end: usize)
    requires
        start <= end,
        covered(lines, LineSpan { start, end }),
    ensures
        count_in(lines, LineType::Added, LineSpan { start, end }) >= end - start + 1,
    decreases end - start,
{
    let span = LineSpan { start, end };
    assert(span.holds(end as nat));
    assert(is_added_line(lines, end as nat));
    let i = choose|i: int|
        0 <= i < lines.len() && (#[trigger] lines[i]).line_type == LineType::Added
            && lines[i].new_line == end as nat;
    lemma_count_in_point(lines, LineType::Added, i, end);
    if start < end {
        let front = LineSpan { start, end: (end - 1) as usize };
        assert forall|n: nat| front.holds(n) implies #[trigger] is_added_line(lines, n) by {
            assert(span.holds(n));
        }
        lemma_covered_count(lines, start, (end - 1) as usize);
        lemma_count_in_split(lines, LineType::Added, start, (end - 1) as usize, end);
    }
}


fn line_refs<'a>(hunks: &'a Vec<Hunk>) -> (all: Vec<&'a HunkLine>)
    ensures
        all.deep_view() == all_lines(hunks.deep_view()),
{
    let mut all: Vec<&'a HunkLine> = Vec::new();
    let ghost views = hunks.deep_view();
    let mut h: usize = 0;
    proof {
        assert(all.deep_view() =~= all_lines(views.take(0)));
    }
    while h < hunks.len()
        invariant
            h <= hunks.len(),
            views == hunks.deep_view(),
            all.deep_view() == all_lines(views.take(h as int)),
        decreases hunks.len() - h,
    {
        let hunk = &hunks[h];
        let ghost before = all.deep_view();
        let ghost body = hunk.lines.deep_view();
        let mut k: usize = 0;
        proof {
            assert(before + body.take(0) =~= before);
        }
        while k < hunk.lines.len()
            invariant
                k <= hunk.lines.len(),
                body == hunk.lines.deep_view(),
                all.deep_view() == before + body.take(k as int),
            decreases hunk.lines.len() - k,
        {
            let ghost prev = all;
            let line = &hunk.lines[k];
            all.push(line);
            proof {
                lemma_deep_view_push(prev, all, line);
                assert(body[k as int] == line.deep_view());
                assert((before + body.take(k as int)).push(body[k as int]) =~= before + body.take(
                    k + 1,
                ));
            }
            k += 1;
        }
        proof {
            assert(body.take(k as int) =~= body);
            assert(views.take(h + 1).drop_last() =~= views.take(h as int));
            assert(views.take(h + 1).last() == hunk@);
        }
        h += 1;
    }
    proof {
        assert(views.take(h as int) =~= views);
    }
    all
}

fn count_lines(lines: &Vec<&HunkLine>, t: LineType, span: &LineSpan) -> (n: usize)
    ensures
        n == count_in(lines.deep_view(), t, *span),
{
    let ghost views = lines.deep_view();
    let mut n: usize = 0;
    let mut i: usize = 0;
    while i < lines.len()
        invariant
            i <= lines.len(),
            views == lines.deep_view(),
            n == count_in(views.take(i as int), t, *span),
            n <= i,
        decreases lines.len() - i,
    {
        proof {
            assert(views.take(i + 1).drop_last() =~= views.take(i as int));
            assert(views.take(i + 1).last() == lines[i as int]@);
        }
        if lines[i].line_type == t && span.contains(lines[i].new_line) {
            n += 1;
        }
        i += 1;
    }
    proof {
        assert(views.take(i as int) =~= views);
    }
    n
}

/// The added lines among the first `k` that stand at the line `n`.
spec fn seen_by(views: Seq<HunkLineView>, k: int, n: nat) -> bool {
    exists|i: int|
        0 <= i < k && (#[trigger] views[i]).line_type == LineType::Added && views[i].new_line == n
}

fn is_covered(lines: &Vec<&HunkLine>, span: &LineSpan, added: usize) -> (b: bool)
    requires
        added == count_in(lines.deep_view(), LineType::Added, *span),
    ensures
        b == covered(lines.deep_view(), *span),
{
    let ghost views = lines.deep_view();
    if span.start > span.end {
        return true;
    }
    let last = span.end - span.start;
    if added <= last {
        proof {
            if covered(views, *span) {
                lemma_covered_count(views, span.start, span.end);
            }
        }
        return false;
    }
    proof {
        lemma_count_in_bound(views, LineType::Added, *span);
    }
    let width = last + 1;
    let mut seen: Vec<bool> = Vec::new();
    while seen.len() < width
        invariant
            seen.len() <= width,
            forall|j: int| 0 <= j < seen.len() ==> !seen[j],
        decreases width - seen.len(),
    {
        seen.push(false);
    }
    let mut k: usize = 0;
    while k < lines.len()
        invariant
            k <= lines.len(),
            views == lines.deep_view(),
            seen.len() == width,
            width == span.end - span.start + 1,
            forall|j: int|
                0 <= j < width ==> (#[trigger] seen[j] <==> seen_by(
                    views,
                    k as int,
                    (span.start + j) as nat,
                )),
        decreases lines.len() - k,
    {
        let line = lines[k];
        let ghost old_seen = seen@;
        proof {
            assert(views[k as int] == line@);
        }
        if line.line_type == LineType::Added && span.contains(line.new_line) {
            seen.set(line.new_line - span.start, true);
        }
        proof {
            assert forall|j: int| 0 <= j < width implies (#[trigger] seen[j] <==> seen_by(
                views,
                k + 1,
                (span.start + j) as nat,
            )) by {
                let n = (span.start + j) as nat;
                if seen_by(views, k as int, n) {
                    let i = choose|i: int|
                        0 <= i < k && (#[trigger] views[i]).line_type == LineType::Added
                            && views[i].new_line == n;
                    assert(0 <= i < k + 1 && views[i].line_type == LineType::Added
                        && views[i].new_line == n);
                }
                if seen_by(views, k + 1, n) && !seen_by(views, k as int, n) {
                    let i = choose|i: int|
                        0 <= i < k + 1 && (#[trigger] views[i]).line_type == LineType::Added
                            && views[i].new_line == n;
                    assert(i == k);
                }
                if views[k as int].line_type == LineType::Added && views[k as int].new_line == n {
                    assert(seen_by(views, k + 1, n));
                }
                assert(old_seen[j] <==> seen_by(views, k as int, n));
            }
        }
        k += 1;
    }
    let mut j: usize = 0;
    while j < width
        invariant
            j <= width,
            seen.len() == width,
            views == lines.deep_view(),
            width == span.end - span.start + 1,
            forall|m: int|
                0 <= m < width ==> (#[trigger] seen[m] <==> seen_by(
                    views,
                    lines.len() as int,
                    (span.start + m) as nat,
                )),
            forall|m: int| 0 <= m < j ==> seen[m],
        decreases width - j,
    {
        if !seen[j] {
            proof {
                let n = (span.start + j) as nat;
                assert(span.holds(n));
                assert(!seen_by(views, lines.len() as int, n));
                if is_added_line(views, n) {
                    let i = choose|i: int|
                        0 <= i < views.len() && (#[trigger] views[i]).line_type == LineType::Added
                            && views[i].new_line == n;
                    assert(seen_by(views, lines.len() as int, n));
                }
            }
            return false;
        }
        j += 1;
    }
    proof {
        assert forall|n: nat| span.holds(n) implies #[trigger] is_added_line(views, n) by {
            let m = n - span.start;
            assert(seen[m]);
            assert(seen_by(views, lines.len() as int, (span.start + m) as nat));
        }
    }
    true
}

fn changes_of_units(lines: &Vec<&HunkLine>, units: &Vec<SemanticUnit>) -> (out: Vec<Change>)
    ensures
        out.deep_view() == unit_changes(lines.deep_view(), units.deep_view()),
{
    let ghost views = lines.deep_view();
    let ghost all = units.deep_view();
    let mut out: Vec<Change> = Vec::new();
    let mut i: usize = 0;
    proof {
        assert(out.deep_view() =~= unit_changes(views, all.take(0)));
    }
    while i < units.len()
        invariant
            i <= units.len(),
            views == lines.deep_view(),
            all == units.deep_view(),
            out.deep_view() == unit_changes(views, all.take(i as int)),
        decreases units.len() - i,
    {
        let unit = &units[i];
        proof {
            assert(all.take(i + 1).drop_last() =~= all.take(i as int));
            assert(all.take(i + 1).last() == unit@);
            lemma_count_in_bound(views, LineType::Added, unit.span);
            lemma_count_in_bound(views, LineType::Removed, unit.span);
        }
        let added = count_lines(lines, LineType::Added, &unit.span);
        let removed = count_lines(lines, LineType::Removed, &unit.span);
        if added > 0 || removed > 0 {
            let kind = if removed == 0 && is_covered(lines, &unit.span, added) {
                ChangeKind::Added
            } else {
                ChangeKind::Modified
            };
            let change = Change {
                unit: unit.duplicate(),
                kind,
                lines_added: added,
                lines_removed: removed,
            };
            let ghost prev = out;
            out.push(change);
            proof {
                lemma_deep_view_push(prev, out, change);
            }
        }
        i += 1;
    }
    proof {
        assert(all.take(i as int) =~= all);
    }
    out
}

fn is_held(units: &Vec<SemanticUnit>, n: usize) -> (b: bool)
    ensures
        b == held(units.deep_view(), n as nat),
{
    let ghost all = units.deep_view();
    let mut k: usize = 0;
    while k < units.len()
        invariant
            k <= units.len(),
            all == units.deep_view(),
            forall|m: int| 0 <= m < k ==> !(#[trigger] all[m]).span.holds(n as nat),
        decreases units.len() - k,
    {
        proof {
            assert(all[k as int] == units[k as int]@);
        }
        if units[k].span.contains(n) {
            return true;
        }
        k += 1;
    }
    false
}

fn is_orphan(line: &HunkLine, units: &Vec<SemanticUnit>) -> (b: bool)
    ensures
        b == orphan(line@, units.deep_view()),
{
    line.line_type == LineType::Removed && !is_held(units, line.new_line)
}

fn find_run_end(lines: &Vec<HunkLine>, units: &Vec<SemanticUnit>, i: usize) -> (j: usize)
    requires
        i <= lines.len(),
    ensures
        j == run_end(lines.deep_view(), units.deep_view(), i as int),
        i <= j <= lines.len(),
{
    let ghost views = lines.deep_view();
    let mut j: usize = i;
    while j < lines.len() && is_orphan(&lines[j], units)
        invariant
            i <= j <= lines.len(),
            views == lines.deep_view(),
            run_end(views, units.deep_view(), i as int) == run_end(
                views,
                units.deep_view(),
                j as int,
            ),
            j < lines.len() ==> views[j as int] == lines[j as int]@,
        decreases lines.len() - j,
    {
        j += 1;
        proof {
            if j < lines.len() {
                assert(views[j as int] == lines[j as int]@);
            }
        }
    }
    j
}

fn add_blocks(
    lines: &Vec<HunkLine>,
    units: &Vec<SemanticUnit>,
    code_type: CodeType,
    path: Ghost<Seq<char>>,
    out: &mut Vec<Change>,
)
    requires
        code_type == code_type_of(Seq::empty(), Seq::empty(), Seq::empty(), path@),
    ensures
        final(out).deep_view() == old(out).deep_view() + blocks_from(
            lines.deep_view(),
            units.deep_view(),
            path@,
            0,
        ),
{
    let ghost views = lines.deep_view();
    let ghost all = units.deep_view();
    let ghost before = out.deep_view();
    let mut i: usize = 0;
    proof {
        assert(before + blocks_from(views, all, path@, 0) =~= out.deep_view() + blocks_from(
            views,
            all,
            path@,
            0,
        ));
    }
    while i < lines.len()
        invariant
            i <= lines.len(),
            views == lines.deep_view(),
            all == units.deep_view(),
            code_type == code_type_of(Seq::empty(), Seq::empty(), Seq::empty(), path@),
            before + blocks_from(views, all, path@, 0) == out.deep_view() + blocks_from(
                views,
                all,
                path@,
                i as int,
            ),
        decreases lines.len() - i,
    {
        proof {
            assert(views[i as int] == lines[i as int]@);
        }
        if !is_orphan(&lines[i], units) {
            i += 1;
        } else {
            let j = find_run_end(lines, units, i + 1);
            proof {
                assert(run_end(views, all, i as int) == run_end(views, all, i + 1));
                if i > 0 {
                    assert(views[i - 1] == lines[i - 1]@);
                }
                if j < lines.len() {
                    assert(views[j as int] == lines[j as int]@);
                }
                assert(views[j - 1] == lines[j - 1]@);
            }
            let pure = (i == 0 || lines[i - 1].line_type != LineType::Added) && (j >= lines.len()
                || lines[j].line_type != LineType::Added);
            if pure {
                let change = Change {
                    unit: SemanticUnit {
                        kind: None,
                        name: String::new(),
                        visibility: Visibility::Private,
                        span: LineSpan { start: lines[i].old_line, end: lines[j - 1].old_line },
                        code_type,
                    },
                    kind: ChangeKind::Removed,
                    lines_added: 0,
                    lines_removed: j - i,
                };
                let ghost prev = *out;
                out.push(change);
                proof {
                    lemma_deep_view_push(prev, *out, change);
                    let rest = blocks_from(views, all, path@, j as int);
                    assert(change@ == block_change(views, i as int, j as int, path@));
                    assert(prev.deep_view() + (seq![change@] + rest) =~= prev.deep_view().push(
                        change@,
                    ) + rest);
                }
            }
            i = j;
        }
    }
    proof {
        assert(out.deep_view() + blocks_from(views, all, path@, i as int) =~= out.deep_view());
    }
}

/// Whether the entry gives no changes whatever the units are: a binary
/// entry, and one without hunks.
pub fn gives_no_changes(diff: &FileDiff) -> (b: bool)
    ensures
        b == (diff@.is_binary || diff@.hunks.len() == 0),
        b ==> forall|units: Seq<SemanticUnitView>| #[trigger] mapped(diff@, units).len() == 0,
{
    proof {
        assert(diff@.hunks.len() == diff.hunks@.len());
    }
    diff.is_binary || diff.hunks.len() == 0
}

/// Maps the diff of one file onto the units of the file's new version.
///
/// Every unit in whose span the diff adds or removes a line gives a change
/// with the lines counted inside that span alone. Removed lines at whose
/// place no unit stands give a change without kind and name. The changes
/// come ordered by the first line of their spans.
///
/// The spans of the units are lines of the new version. A removed line is
/// therefore counted for the unit that holds the new side's line before
/// which it was removed, not for the one that holds its old number.
pub fn map_changes(diff: &FileDiff, units: &Vec<SemanticUnit>) -> (changes: Vec<Change>)
    ensures
        changes.deep_view() == mapped(diff@, units.deep_view()),
{
    if diff.is_binary || diff.hunks.len() == 0 {
        let none: Vec<Change> = Vec::new();
        proof {
            assert(none.deep_view() =~= Seq::<ChangeView>::empty());
            assert(diff@.hunks.len() == diff.hunks@.len());
        }
        return none;
    }
    proof {
        assert(diff@.hunks.len() == diff.hunks@.len());
    }
    let lines = line_refs(&diff.hunks);
    let mut out = changes_of_units(&lines, units);
    let no_annotations: Vec<Annotation> = Vec::new();
    let no_modules: Vec<Vec<char>> = Vec::new();
    let path_chars = chars_of(diff.new_path.as_str());
    let code_type = classify(&no_annotations, &no_annotations, &no_modules, &path_chars);
    proof {
        assert(views_of(no_modules@) =~= Seq::<Seq<char>>::empty());
        assert(no_annotations@ =~= Seq::<Annotation>::empty());
    }
    let ghost first = out.deep_view();
    let ghost hunks = diff.hunks.deep_view();
    let ghost all = units.deep_view();
    let ghost path = diff.new_path@;
    let mut h: usize = 0;
    proof {
        assert(first + removed_blocks(hunks.take(0), all, path) =~= first);
    }
    while h < diff.hunks.len()
        invariant
            h <= diff.hunks.len(),
            hunks == diff.hunks.deep_view(),
            all == units.deep_view(),
            path == diff.new_path@,
            code_type == code_type_of(Seq::empty(), Seq::empty(), Seq::empty(), path),
            out.deep_view() == first + removed_blocks(hunks.take(h as int), all, path),
        decreases diff.hunks.len() - h,
    {
        let ghost done = removed_blocks(hunks.take(h as int), all, path);
        add_blocks(&diff.hunks[h].lines, units, code_type, Ghost(path), &mut out);
        proof {
            assert(hunks.take(h + 1).drop_last() =~= hunks.take(h as int));
            assert(hunks.take(h + 1).last() == diff.hunks[h as int]@);
            let more = blocks_from(diff.hunks[h as int]@.lines, all, path, 0);
            assert((first + done) + more =~= first + (done + more));
        }
        h += 1;
    }
    proof {
        assert(hunks.take(h as int) =~= hunks);
    }
    sort_by_start(out)
}


/// No two of the spans share a line.
pub open spec fn disjoint(units: Seq<SemanticUnitView>) -> bool {
    forall|i: int, j: int|
        0 <= i < j < units.len() ==> !(#[trigger] units[i]).span.meets((#[trigger] units[j]).span)
}

/// Every line of the type `t` stands in the span of some unit.
pub open spec fn all_held(lines: Seq<HunkLineView>, t: LineType, units: Seq<SemanticUnitView>) -> bool {
    forall|i: int|
        0 <= i < lines.len() && (#[trigger] lines[i]).line_type == t ==> held(
            units,
            lines[i].new_line,
        )
}

/// The lines of the type `t` in the span of a unit.
pub open spec fn share_of(lines: Seq<HunkLineView>, t: LineType) -> spec_fn(
    SemanticUnitView,
) -> nat {
    |u: SemanticUnitView| count_in(lines, t, u.span)
}

/// One for a unit in whose span the line stands with the type `t`.
pub open spec fn hit_by(line: HunkLineView, t: LineType) -> spec_fn(SemanticUnitView) -> nat {
    |u: SemanticUnitView|
        if lies_in(line, t, u.span) {
            1nat
        } else {
            0nat
        }
}

proof fn lemma_one_hit(units: Seq<SemanticUnitView>, line: HunkLineView, t: LineType)
    requires
        disjoint(units),
        line.line_type == t,
        held(units, line.new_line),
    ensures
        sum_by(units, hit_by(line, t)) == 1,
    decreases units.len(),
{
    let n = line.new_line;
    let k = choose|k: int| 0 <= k < units.len() && (#[trigger] units[k]).span.holds(n);
    let front = units.drop_last();
    assert(disjoint(front)) by {
        assert forall|i: int, j: int| 0 <= i < j < front.len() implies !(#[trigger] front[i]).span.meets(
            (#[trigger] front[j]).span,
        ) by {
            assert(front[i] == units[i] && front[j] == units[j]);
        }
    }
    if units.last().span.holds(n) {
        assert forall|i: int| 0 <= i < front.len() implies hit_by(line, t)(#[trigger] front[i])
            == 0 by {
            assert(front[i] == units[i]);
            assert(!units[i].span.meets(units[units.len() - 1].span));
        }
        lemma_sum_by_zero(front, hit_by(line, t));
    } else {
        assert(k < front.len());
        assert(front[k] == units[k]);
        assert(held(front, n));
        lemma_one_hit(front, line, t);
    }
}

/// Where no two units share a line and every line of the type `t` stands
/// in some unit, the units' shares of these lines add up to their number.
pub proof fn lemma_lines_apportioned(
    lines: Seq<HunkLineView>,
    t: LineType,
    units: Seq<SemanticUnitView>,
)
    requires
        disjoint(units),
        all_held(lines, t, units),
    ensures
        sum_by(units, share_of(lines, t)) == crate::git::hunk::count_of(lines, t),
    decreases lines.len(),
{
    if lines.len() == 0 {
        assert forall|i: int| 0 <= i < units.len() implies share_of(lines, t)(#[trigger] units[i])
            == 0 by {}
        lemma_sum_by_zero(units, share_of(lines, t));
    } else {
        let front = lines.drop_last();
        let last = lines.last();
        assert(all_held(front, t, units)) by {
            assert forall|i: int| 0 <= i < front.len() && (#[trigger] front[i]).line_type
                == t implies held(units, front[i].new_line) by {
                assert(front[i] == lines[i]);
            }
        }
        lemma_lines_apportioned(front, t, units);
        lemma_sum_by_pointwise(units, share_of(front, t), hit_by(last, t), share_of(lines, t));
        if last.line_type == t {
            assert(lines[lines.len() - 1] == last);
            lemma_one_hit(units, last, t);
        } else {
            assert forall|i: int| 0 <= i < units.len() implies hit_by(last, t)(#[trigger] units[i])
                == 0 by {}
            lemma_sum_by_zero(units, hit_by(last, t));
        }
    }
}

/// The lines of the touched units' changes are the units' shares.
proof fn lemma_unit_changes_sums(lines: Seq<HunkLineView>, units: Seq<SemanticUnitView>)
    ensures
        sum_by(unit_changes(lines, units), crate::types::change::added_lines()) == sum_by(
            units,
            share_of(lines, LineType::Added),
        ),
        sum_by(unit_changes(lines, units), crate::types::change::removed_lines()) == sum_by(
            units,
            share_of(lines, LineType::Removed),
        ),
    decreases units.len(),
{
    if units.len() > 0 {
        lemma_unit_changes_sums(lines, units.drop_last());
        let before = unit_changes(lines, units.drop_last());
        if touched(lines, units.last().span) {
            let change = unit_change(lines, units.last());
            assert(before.push(change).drop_last() =~= before);
        }
    }
}

/// The removed blocks add no lines.
proof fn lemma_blocks_add_nothing(
    lines: Seq<HunkLineView>,
    units: Seq<SemanticUnitView>,
    path: Seq<char>,
    i: int,
)
    ensures
        sum_by(blocks_from(lines, units, path, i), crate::types::change::added_lines()) == 0,
        all_held(lines, LineType::Removed, units) ==> blocks_from(lines, units, path, i).len() == 0,
    decreases lines.len() - i,
{
    let f = crate::types::change::added_lines();
    if i < 0 || i >= lines.len() {
    } else if !orphan(lines[i], units) {
        lemma_blocks_add_nothing(lines, units, path, i + 1);
    } else {
        let j = run_end(lines, units, i);
        if j <= i || j > lines.len() {
        } else {
            lemma_blocks_add_nothing(lines, units, path, j);
            if is_pure(lines, i, j) {
                let block = seq![block_change(lines, i, j, path)];
                crate::types::change::lemma_sum_by_concat(
                    block,
                    blocks_from(lines, units, path, j),
                    f,
                );
                assert(block.drop_last() =~= Seq::<ChangeView>::empty());
                assert(sum_by(block, f) == 0);
            }
        }
    }
}

proof fn lemma_removed_blocks_add_nothing(
    hunks: Seq<HunkView>,
    units: Seq<SemanticUnitView>,
    path: Seq<char>,
)
    ensures
        sum_by(removed_blocks(hunks, units, path), crate::types::change::added_lines()) == 0,
        all_held(all_lines(hunks), LineType::Removed, units) ==> removed_blocks(
            hunks,
            units,
            path,
        ).len() == 0,
    decreases hunks.len(),
{
    if hunks.len() > 0 {
        let front = hunks.drop_last();
        let body = hunks.last().lines;
        lemma_removed_blocks_add_nothing(front, units, path);
        lemma_blocks_add_nothing(body, units, path, 0);
        crate::types::change::lemma_sum_by_concat(
            removed_blocks(front, units, path),
            blocks_from(body, units, path, 0),
            crate::types::change::added_lines(),
        );
        if all_held(all_lines(hunks), LineType::Removed, units) {
            let all = all_lines(hunks);
            let before = all_lines(front);
            assert(all_held(before, LineType::Removed, units)) by {
                assert forall|i: int| 0 <= i < before.len() && (#[trigger] before[i]).line_type
                    == LineType::Removed implies held(units, before[i].new_line) by {
                    assert(all[i] == before[i]);
                }
            }
            assert(all_held(body, LineType::Removed, units)) by {
                assert forall|i: int| 0 <= i < body.len() && (#[trigger] body[i]).line_type
                    == LineType::Removed implies held(units, body[i].new_line) by {
                    assert(all[before.len() + i] == body[i]);
                }
            }
        }
    }
}

/// The added lines of a diff are apportioned among the units: where no two
/// units share a line and every added line stands in some unit, the added
/// lines of all changes add up to the number of added lines in the diff's
/// hunks. For a diff of one hunk that is the hunk's count of added lines.
pub proof fn lemma_added_lines_apportioned(diff: FileDiffView, units: Seq<SemanticUnitView>)
    requires
        !diff.is_binary,
        disjoint(units),
        all_held(all_lines(diff.hunks), LineType::Added, units),
    ensures
        sum_by(mapped(diff, units), crate::types::change::added_lines())
            == crate::git::hunk::count_of(all_lines(diff.hunks), LineType::Added),
{
    let f = crate::types::change::added_lines();
    let lines = all_lines(diff.hunks);
    if diff.hunks.len() == 0 {
    } else {
        let found = found_changes(diff, units);
        crate::order::lemma_stable_sorted::<Change>(found);
        crate::types::change::lemma_sum_by_permutation(mapped(diff, units), found, f);
        crate::types::change::lemma_sum_by_concat(
            unit_changes(lines, units),
            removed_blocks(diff.hunks, units, diff.new_path),
            f,
        );
        lemma_removed_blocks_add_nothing(diff.hunks, units, diff.new_path);
        lemma_unit_changes_sums(lines, units);
        lemma_lines_apportioned(lines, LineType::Added, units);
    }
}

/// The removed lines of a diff are apportioned among the units: where no two
/// units share a line and every removed line was removed inside some unit,
/// the removed lines of all changes add up to the number of removed lines in
/// the diff's hunks.
pub proof fn lemma_removed_lines_apportioned(diff: FileDiffView, units: Seq<SemanticUnitView>)
    requires
        !diff.is_binary,
        disjoint(units),
        all_held(all_lines(diff.hunks), LineType::Removed, units),
    ensures
        sum_by(mapped(diff, units), crate::types::change::removed_lines())
            == crate::git::hunk::count_of(all_lines(diff.hunks), LineType::Removed),
{
    let f = crate::types::change::removed_lines();
    let lines = all_lines(diff.hunks);
    if diff.hunks.len() == 0 {
    } else {
        let found = found_changes(diff, units);
        crate::order::lemma_stable_sorted::<Change>(found);
        crate::types::change::lemma_sum_by_permutation(mapped(diff, units), found, f);
        lemma_removed_blocks_add_nothing(diff.hunks, units, diff.new_path);
        assert(found =~= unit_changes(lines, units));
        lemma_unit_changes_sums(lines, units);
        lemma_lines_apportioned(lines, LineType::Removed, units);
    }
}

} // verus!
