use vstd::prelude::*;

verus! {

/// What a line of a hunk body does.
#[derive(Debug, Clone, Copy, PartialEq, Eq, Hash, Structural)]
pub enum LineType {
    /// Present on both sides.
    Context,
    /// Present on the new side only.
    Added,
    /// Present on the old side only.
    Removed,
}

/// One body line of a hunk, with its position on both sides.
///
/// `old_line` is the line's number in the old file for a context or removed
/// line; for an added line it is the number of the old line before which the
/// addition stands. `new_line` is the line's number in the new file for a
/// context or added line; for a removed line it is the number of the new line
/// before which the removal happened.
#[derive(Debug, Clone, PartialEq, Eq)]
pub struct HunkLine {
    pub line_type: LineType,
    pub content: String,
    pub old_line: usize,
    pub new_line: usize,
}

/// The mathematical value of a [`HunkLine`].
pub struct HunkLineView {
    pub line_type: LineType,
    pub content: Seq<char>,
    pub old_line: nat,
    pub new_line: nat,
}

impl View for HunkLine {
    type V = HunkLineView;

    open spec fn view(&self) -> HunkLineView {
        HunkLineView {
            line_type: self.line_type,
            content: self.content@,
            old_line: self.old_line as nat,
            new_line: self.new_line as nat,
        }
    }
}

impl DeepView for HunkLine {
    type V = HunkLineView;

    open spec fn deep_view(&self) -> HunkLineView {
        self@
    }
}

impl HunkLine {
    /// The line's number in the old file, if it stands there.
    pub fn old_number(&self) -> (n: Option<usize>)
        ensures
            n == (if self.line_type == LineType::Added {
                None
            } else {
                Some(self.old_line)
            }),
    {
        match self.line_type {
            LineType::Added => None,
            _ => Some(self.old_line),
        }
    }

    /// The line's number in the new file, if it stands there.
    pub fn new_number(&self) -> (n: Option<usize>)
        ensures
            n == (if self.line_type == LineType::Removed {
                None
            } else {
                Some(self.new_line)
            }),
    {
        match self.line_type {
            LineType::Removed => None,
            _ => Some(self.new_line),
        }
    }
}

/// How many of `lines` have the type `t`.
pub open spec fn count_of(lines: Seq<HunkLineView>, t: LineType) -> nat
    decreases lines.len(),
{
    if lines.len() == 0 {
        0
    } else {
        count_of(lines.drop_last(), t) + if lines.last().line_type == t {
            1nat
        } else {
            0nat
        }
    }
}

/// By how much the old-side counter has moved after `lines`.
pub open spec fn old_advance(lines: Seq<HunkLineView>) -> nat {
    count_of(lines, LineType::Context) + count_of(lines, LineType::Removed)
}

/// By how much the new-side counter has moved after `lines`.
pub open spec fn new_advance(lines: Seq<HunkLineView>) -> nat {
    count_of(lines, LineType::Context) + count_of(lines, LineType::Added)
}

/// Every line carries the value that the two counters had when it was read:
/// both start at the header's numbers, a context line moves both, an added
/// line the new side only, a removed line the old side only.
pub open spec fn numbered_from(lines: Seq<HunkLineView>, old_start: nat, new_start: nat) -> bool {
    forall|i: int|
        0 <= i < lines.len() ==> {
            &&& (#[trigger] lines[i]).old_line == old_start + old_advance(lines.take(i))
            &&& lines[i].new_line == new_start + new_advance(lines.take(i))
        }
}

/// One hunk of a unified diff.
#[derive(Debug, Clone, PartialEq, Eq)]
pub struct Hunk {
    pub old_start: usize,
    pub old_count: usize,
    pub new_start: usize,
    pub new_count: usize,
    pub lines: Vec<HunkLine>,
}

/// The mathematical value of a [`Hunk`].
pub struct HunkView {
    pub old_start: nat,
    pub old_count: nat,
    pub new_start: nat,
    pub new_count: nat,
    pub lines: Seq<HunkLineView>,
}

impl HunkView {
    /// The body lines are numbered from the header's two start numbers.
    pub open spec fn well_numbered(self) -> bool {
        numbered_from(self.lines, self.old_start, self.new_start)
    }
}

impl View for Hunk {
    type V = HunkView;

    open spec fn view(&self) -> HunkView {
        HunkView {
            old_start: self.old_start as nat,
            old_count: self.old_count as nat,
            new_start: self.new_start as nat,
            new_count: self.new_count as nat,
            lines: self.lines.deep_view(),
        }
    }
}

impl DeepView for Hunk {
    type V = HunkView;

    open spec fn deep_view(&self) -> HunkView {
        self@
    }
}

impl Hunk {
    /// Counts the body lines of one type.
    pub fn count(&self, t: LineType) -> (n: usize)
        ensures
            n == count_of(self@.lines, t),
    {
        let mut n: usize = 0;
        let mut i: usize = 0;
        while i < self.lines.len()
            invariant
                i <= self.lines.len(),
                n == count_of(self@.lines.take(i as int), t),
                n <= i,
            decreases self.lines.len() - i,
        {
            proof {
                assert(self@.lines.take(i + 1).drop_last() =~= self@.lines.take(i as int));
            }
            if self.lines[i].line_type == t {
                n += 1;
            }
            i += 1;
        }
        proof {
            assert(self@.lines.take(i as int) =~= self@.lines);
        }
        n
    }

    /// The number of added lines in the body.
    pub fn added_count(&self) -> (n: usize)
        ensures
            n == count_of(self@.lines, LineType::Added),
    {
        self.count(LineType::Added)
    }

    /// The number of removed lines in the body.
    pub fn removed_count(&self) -> (n: usize)
        ensures
            n == count_of(self@.lines, LineType::Removed),
    {
        self.count(LineType::Removed)
    }
}


/// One more line moves a count by one where its type is the counted one.
pub proof fn lemma_count_of_push(lines: Seq<HunkLineView>, line: HunkLineView, t: LineType)
    ensures
        count_of(lines.push(line), t) == count_of(lines, t) + if line.line_type == t {
            1nat
        } else {
            0nat
        },
{
    assert(lines.push(line).drop_last() =~= lines);
}

/// A body that is numbered from two starts stays so when a line is added
/// that carries the two counters' values.
pub proof fn lemma_numbered_push(
    lines: Seq<HunkLineView>,
    line: HunkLineView,
    old_start: nat,
    new_start: nat,
)
    requires
        numbered_from(lines, old_start, new_start),
        line.old_line == old_start + old_advance(lines),
        line.new_line == new_start + new_advance(lines),
    ensures
        numbered_from(lines.push(line), old_start, new_start),
{
    let all = lines.push(line);
    assert forall|i: int| 0 <= i < all.len() implies {
        &&& (#[trigger] all[i]).old_line == old_start + old_advance(all.take(i))
        &&& all[i].new_line == new_start + new_advance(all.take(i))
    } by {
        if i < lines.len() {
            assert(all.take(i) =~= lines.take(i));
            assert(all[i] == lines[i]);
        } else {
            assert(all.take(i) =~= lines);
        }
    }
}

} // verus!
