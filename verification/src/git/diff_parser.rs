use vstd::prelude::*;

use crate::error::DiffParseError;
use crate::git::hunk::{
    lemma_count_of_push, lemma_numbered_push, new_advance, old_advance, Hunk, HunkLine,
    HunkLineView, HunkView, LineType,
};
use crate::text::{
    chars_of, decimal, ends_with, find_token_end, find_token_start, has_at, has_prefix,
    has_suffix, lemma_deep_view_empty, lemma_deep_view_push, lines_of, push_decimal, read_number,
    scan_number, skip_spaces, starts_at, starts_with, string_of, token_end, views_of,
};

verus! {

/// The changes that a diff makes to one file.
#[derive(Debug, Clone, PartialEq, Eq)]
pub struct FileDiff {
    /// The path before the change, without the side prefix.
    pub old_path: String,
    /// The path after the change, without the side prefix.
    pub new_path: String,
    /// A rename marker stood in the section.
    pub is_rename: bool,
    /// A binary marker stood in the section; such an entry has no hunks.
    pub is_binary: bool,
    pub hunks: Vec<Hunk>,
}

/// The mathematical value of a [`FileDiff`].
pub struct FileDiffView {
    pub old_path: Seq<char>,
    pub new_path: Seq<char>,
    pub is_rename: bool,
    pub is_binary: bool,
    pub hunks: Seq<HunkView>,
}

impl FileDiffView {
    /// A binary entry carries no hunks, and every hunk is numbered from its header.
    pub open spec fn well_formed(self) -> bool {
        &&& self.is_binary ==> self.hunks.len() == 0
        &&& forall|i: int| 0 <= i < self.hunks.len() ==> (#[trigger] self.hunks[i]).well_numbered()
    }
}

impl View for FileDiff {
    type V = FileDiffView;

    open spec fn view(&self) -> FileDiffView {
        FileDiffView {
            old_path: self.old_path@,
            new_path: self.new_path@,
            is_rename: self.is_rename,
            is_binary: self.is_binary,
            hunks: self.hunks.deep_view(),
        }
    }
}

impl DeepView for FileDiff {
    type V = FileDiffView;

    open spec fn deep_view(&self) -> FileDiffView {
        self@
    }
}

/// The four numbers of a hunk header.
#[derive(Debug, Clone, Copy, PartialEq, Eq, Structural)]
pub struct HunkHeader {
    pub old_start: usize,
    pub old_count: usize,
    pub new_start: usize,
    pub new_count: usize,
}

/// A line opens a file section: it is the header word alone, or the header
/// word and a space with anything behind it.
pub open spec fn is_section_header(line: Seq<char>) -> bool {
    let word = "diff --git"@;
    has_prefix(line, word) && (line.len() == word.len() || line[word.len() as int] == ' ')
}

/// A path token without its side prefix (`a/` for the old side, `b/` for the new).
pub open spec fn strip_side(token: Seq<char>, side: char) -> Seq<char> {
    if token.len() >= 2 && token[0] == side && token[1] == '/' {
        token.subrange(2, token.len() as int)
    } else {
        token
    }
}

/// The old and the new path of a section header: the first two tokens behind
/// the header word, each without its side prefix. `None` where a token is missing.
pub open spec fn header_paths(line: Seq<char>) -> Option<(Seq<char>, Seq<char>)> {
    let a0 = skip_spaces(line, "diff --git"@.len() as int);
    let a1 = token_end(line, a0);
    let b0 = skip_spaces(line, a1);
    let b1 = token_end(line, b0);
    if a0 < a1 && b0 < b1 {
        Some((strip_side(line.subrange(a0, a1), 'a'), strip_side(line.subrange(b0, b1), 'b')))
    } else {
        None
    }
}

/// A start number with an optional `,count`; the count is 1 where it is left out.
/// The result holds the start, the count and the index behind what was read.
pub open spec fn scan_range(s: Seq<char>, i: int) -> Option<(nat, nat, int)> {
    match scan_number(s, i) {
        None => None,
        Some((start, j)) => {
            if j < s.len() && s[j] == ',' {
                match scan_number(s, j + 1) {
                    None => None,
                    Some((count, k)) => Some((start, count, k)),
                }
            } else {
                Some((start, 1, j))
            }
        },
    }
}

/// The numbers of a hunk header `@@ -start[,count] +start[,count] @@`, with
/// anything behind the closing marker. `None` where the line has another
/// shape or a number does not fit the machine's word.
pub open spec fn hunk_header(line: Seq<char>) -> Option<HunkHeader> {
    if !has_prefix(line, "@@ -"@) {
        None
    } else {
        match scan_range(line, "@@ -"@.len() as int) {
            None => None,
            Some((old_start, old_count, j)) => {
                if !has_at(line, j, " +"@) {
                    None
                } else {
                    match scan_range(line, j + " +"@.len()) {
                        None => None,
                        Some((new_start, new_count, k)) => {
                            if has_at(line, k, " @@"@) {
                                Some(
                                    HunkHeader {
                                        old_start: old_start as usize,
                                        old_count: old_count as usize,
                                        new_start: new_start as usize,
                                        new_count: new_count as usize,
                                    },
                                )
                            } else {
                                None
                            }
                        },
                    }
                }
            },
        }
    }
}

fn read_range(s: &Vec<char>, i: usize) -> (r: Option<(usize, usize, usize)>)
    requires
        i <= s.len(),
    ensures
        match scan_range(s@, i as int) {
            Some((a, b, k)) => r == Some((a as usize, b as usize, k as usize)) && a <= usize::MAX
                && b <= usize::MAX && i < k <= s.len(),
            None => r is None,
        },
{
    match read_number(s, i) {
        None => None,
        Some((start, j)) => {
            if j < s.len() && s[j] == ',' {
                match read_number(s, j + 1) {
                    None => None,
                    Some((count, k)) => Some((start, count, k)),
                }
            } else {
                Some((start, 1, j))
            }
        },
    }
}

/// Reads a hunk header.
pub fn parse_hunk_header(line: &Vec<char>) -> (r: Option<HunkHeader>)
    ensures
        r == hunk_header(line@),
{
    if !starts_with(line, "@@ -") {
        return None;
    }
    let p = "@@ -".unicode_len();
    match read_range(line, p) {
        None => None,
        Some((old_start, old_count, j)) => {
            if !starts_at(line, j, " +") {
                return None;
            }
            let q = " +".unicode_len();
            match read_range(line, j + q) {
                None => None,
                Some((new_start, new_count, k)) => {
                    if starts_at(line, k, " @@") {
                        Some(HunkHeader { old_start, old_count, new_start, new_count })
                    } else {
                        None
                    }
                },
            }
        },
    }
}


/// What can be wrong with the structure of a diff.
#[derive(Debug, Clone, Copy, PartialEq, Eq, Structural)]
pub enum DiffFault {
    /// A section header without its two path tokens.
    TruncatedHeader,
    /// A section without its old-path line and new-path line before the hunks.
    MissingPathLine,
    /// A section that is not binary and has no hunk.
    MissingHunk,
    /// A hunk header of another shape, or with a number that is none.
    MalformedHunkHeader,
    /// A body line that starts with none of the four markers.
    UnexpectedLine,
    /// A line number past the largest that the machine can hold.
    LineNumberOverflow,
}

/// Where the parser stands between two lines.
#[derive(Debug, Clone, Copy, PartialEq, Eq, Structural)]
pub enum Phase {
    /// Before the first section.
    Outside,
    /// Behind a section header, before the path lines.
    Preamble,
    /// Behind the old-path line.
    ExpectNewPath,
    /// Behind the new-path line.
    ExpectHunk,
    /// In the body of a hunk.
    InHunk,
    /// Behind a binary marker.
    Binary,
}

/// What the parser knows between two lines: the sections that are closed,
/// and the open section with its closed hunks and its open hunk.
pub struct ParseState {
    pub files: Seq<FileDiffView>,
    pub phase: Phase,
    pub old_path: Seq<char>,
    pub new_path: Seq<char>,
    pub is_rename: bool,
    pub hunks: Seq<HunkView>,
    pub header: HunkHeader,
    pub lines: Seq<HunkLineView>,
    pub old_next: nat,
    pub new_next: nat,
}

/// The header that stands in a state while no hunk is open.
pub open spec fn no_header() -> HunkHeader {
    HunkHeader { old_start: 0, old_count: 0, new_start: 0, new_count: 0 }
}

/// The state before the first line.
pub open spec fn initial_state() -> ParseState {
    ParseState {
        files: Seq::empty(),
        phase: Phase::Outside,
        old_path: Seq::empty(),
        new_path: Seq::empty(),
        is_rename: false,
        hunks: Seq::empty(),
        header: no_header(),
        lines: Seq::empty(),
        old_next: 0,
        new_next: 0,
    }
}

/// The open hunk as it stands.
pub open spec fn open_hunk_view(s: ParseState) -> HunkView {
    HunkView {
        old_start: s.header.old_start as nat,
        old_count: s.header.old_count as nat,
        new_start: s.header.new_start as nat,
        new_count: s.header.new_count as nat,
        lines: s.lines,
    }
}

/// The closed sections once the open one is closed too. A binary section
/// closes without hunks; any other needs a hunk.
pub open spec fn close_section(s: ParseState) -> Result<Seq<FileDiffView>, DiffFault> {
    match s.phase {
        Phase::Outside => Ok(s.files),
        Phase::Binary => Ok(
            s.files.push(
                FileDiffView {
                    old_path: s.old_path,
                    new_path: s.new_path,
                    is_rename: s.is_rename,
                    is_binary: true,
                    hunks: Seq::empty(),
                },
            ),
        ),
        Phase::InHunk => Ok(
            s.files.push(
                FileDiffView {
                    old_path: s.old_path,
                    new_path: s.new_path,
                    is_rename: s.is_rename,
                    is_binary: false,
                    hunks: s.hunks.push(open_hunk_view(s)),
                },
            ),
        ),
        _ => Err(DiffFault::MissingHunk),
    }
}

/// The state behind a section header that follows the closed sections `files`.
pub open spec fn open_section(files: Seq<FileDiffView>, line: Seq<char>) -> Result<
    ParseState,
    DiffFault,
> {
    match header_paths(line) {
        None => Err(DiffFault::TruncatedHeader),
        Some((old_path, new_path)) => Ok(
            ParseState {
                files,
                phase: Phase::Preamble,
                old_path,
                new_path,
                is_rename: false,
                hunks: Seq::empty(),
                header: no_header(),
                lines: Seq::empty(),
                old_next: 0,
                new_next: 0,
            },
        ),
    }
}

/// The state behind a hunk header that follows the closed hunks `hunks`.
pub open spec fn open_hunk(s: ParseState, hunks: Seq<HunkView>, line: Seq<char>) -> Result<
    ParseState,
    DiffFault,
> {
    match hunk_header(line) {
        None => Err(DiffFault::MalformedHunkHeader),
        Some(header) => Ok(
            ParseState {
                phase: Phase::InHunk,
                hunks,
                header,
                lines: Seq::empty(),
                old_next: header.old_start as nat,
                new_next: header.new_start as nat,
                ..s
            },
        ),
    }
}

/// The line says that two binary files differ.
pub open spec fn is_binary_marker(line: Seq<char>) -> bool {
    has_prefix(line, "Binary files "@) && has_suffix(line, "differ"@)
}

/// The line belongs to the extended header of a rename.
pub open spec fn is_rename_marker(line: Seq<char>) -> bool {
    has_prefix(line, "similarity index "@) || has_prefix(line, "rename from "@) || has_prefix(
        line,
        "rename to "@,
    )
}

/// The state behind one more line of the open hunk's body. The first
/// character decides: a space is context, `+` added, `-` removed, and a
/// backslash marks a missing line feed at the end of a file and counts for
/// nothing. A counter that cannot move on is a fault.
pub open spec fn body_line(s: ParseState, line: Seq<char>) -> Result<ParseState, DiffFault> {
    if line.len() == 0 {
        Err(DiffFault::UnexpectedLine)
    } else {
        let content = line.subrange(1, line.len() as int);
        let at = |line_type: LineType|
            HunkLineView { line_type, content, old_line: s.old_next, new_line: s.new_next };
        if line[0] == '\\' {
            Ok(s)
        } else if line[0] == ' ' {
            if s.old_next >= usize::MAX || s.new_next >= usize::MAX {
                Err(DiffFault::LineNumberOverflow)
            } else {
                Ok(
                    ParseState {
                        lines: s.lines.push(at(LineType::Context)),
                        old_next: s.old_next + 1,
                        new_next: s.new_next + 1,
                        ..s
                    },
                )
            }
        } else if line[0] == '+' {
            if s.new_next >= usize::MAX {
                Err(DiffFault::LineNumberOverflow)
            } else {
                Ok(
                    ParseState {
                        lines: s.lines.push(at(LineType::Added)),
                        new_next: s.new_next + 1,
                        ..s
                    },
                )
            }
        } else if line[0] == '-' {
            if s.old_next >= usize::MAX {
                Err(DiffFault::LineNumberOverflow)
            } else {
                Ok(
                    ParseState {
                        lines: s.lines.push(at(LineType::Removed)),
                        old_next: s.old_next + 1,
                        ..s
                    },
                )
            }
        } else {
            Err(DiffFault::UnexpectedLine)
        }
    }
}

/// The state behind one more line.
///
/// A section header closes the open section and opens the next. Before the
/// first section and behind a binary marker every other line is passed over.
/// Behind a section header come, in this order, any lines of the extended
/// header (of which the rename markers and the binary marker are noted), the
/// old-path line, the new-path line and a hunk header; then body lines and
/// further hunk headers.
pub open spec fn step(s: ParseState, line: Seq<char>) -> Result<ParseState, DiffFault> {
    if is_section_header(line) {
        match close_section(s) {
            Err(fault) => Err(fault),
            Ok(files) => open_section(files, line),
        }
    } else {
        match s.phase {
            Phase::Outside => Ok(s),
            Phase::Binary => Ok(s),
            Phase::Preamble => {
                if is_binary_marker(line) {
                    Ok(ParseState { phase: Phase::Binary, ..s })
                } else if is_rename_marker(line) {
                    Ok(ParseState { is_rename: true, ..s })
                } else if has_prefix(line, "--- "@) {
                    Ok(ParseState { phase: Phase::ExpectNewPath, ..s })
                } else if has_prefix(line, "+++ "@) || has_prefix(line, "@@"@) {
                    Err(DiffFault::MissingPathLine)
                } else {
                    Ok(s)
                }
            },
            Phase::ExpectNewPath => {
                if has_prefix(line, "+++ "@) {
                    Ok(ParseState { phase: Phase::ExpectHunk, ..s })
                } else {
                    Err(DiffFault::MissingPathLine)
                }
            },
            Phase::ExpectHunk => {
                if has_prefix(line, "@@"@) {
                    open_hunk(s, s.hunks, line)
                } else {
                    Err(DiffFault::MissingHunk)
                }
            },
            Phase::InHunk => {
                if has_prefix(line, "@@"@) {
                    open_hunk(s, s.hunks.push(open_hunk_view(s)), line)
                } else {
                    body_line(s, line)
                }
            },
        }
    }
}

/// The result of reading `lines[i..]` from the state `s`: the sections, or
/// the first fault with the number of the line that it was found at (the
/// last line's number where the text ends too early).
pub open spec fn run(s: ParseState, lines: Seq<Seq<char>>, i: int) -> Result<
    Seq<FileDiffView>,
    (DiffFault, nat),
>
    decreases lines.len() - i,
{
    if i < 0 || i >= lines.len() {
        match close_section(s) {
            Ok(files) => Ok(files),
            Err(fault) => Err((fault, lines.len())),
        }
    } else {
        match step(s, lines[i]) {
            Err(fault) => Err((fault, (i + 1) as nat)),
            Ok(next) => run(next, lines, i + 1),
        }
    }
}

/// What a diff text holds: its file sections in order, or its first fault.
pub open spec fn parsed(text: Seq<char>) -> Result<Seq<FileDiffView>, (DiffFault, nat)> {
    run(initial_state(), crate::text::split_lines(text), 0)
}


/// What the message of a parse error says of each fault.
pub open spec fn fault_text(fault: DiffFault) -> Seq<char> {
    match fault {
        DiffFault::TruncatedHeader => "section header lacks its two paths"@,
        DiffFault::MissingPathLine => "old-path and new-path lines are missing"@,
        DiffFault::MissingHunk => "file section has no hunk"@,
        DiffFault::MalformedHunkHeader => "malformed hunk header"@,
        DiffFault::UnexpectedLine => "unexpected line in hunk body"@,
        DiffFault::LineNumberOverflow => "line number out of range"@,
    }
}

/// The message of a parse error: the line's number, then the fault.
pub open spec fn fault_message(fault: DiffFault, line: nat) -> Seq<char> {
    "line "@ + decimal(line) + ": "@ + fault_text(fault)
}

fn fault_str(fault: DiffFault) -> (s: &'static str)
    ensures
        s@ == fault_text(fault),
{
    match fault {
        DiffFault::TruncatedHeader => "section header lacks its two paths",
        DiffFault::MissingPathLine => "old-path and new-path lines are missing",
        DiffFault::MissingHunk => "file section has no hunk",
        DiffFault::MalformedHunkHeader => "malformed hunk header",
        DiffFault::UnexpectedLine => "unexpected line in hunk body",
        DiffFault::LineNumberOverflow => "line number out of range",
    }
}

/// The error that reports `fault` at the line with the number `line`.
pub fn diff_error(fault: DiffFault, line: usize) -> (e: DiffParseError)
    ensures
        e.message@ == fault_message(fault, line as nat),
{
    let mut message = String::from_str("line ");
    push_decimal(&mut message, line);
    message.append(": ");
    message.append(fault_str(fault));
    DiffParseError { message }
}

struct Parser {
    files: Vec<FileDiff>,
    phase: Phase,
    old_path: String,
    new_path: String,
    is_rename: bool,
    hunks: Vec<Hunk>,
    header: HunkHeader,
    lines: Vec<HunkLine>,
    old_next: usize,
    new_next: usize,
}

spec fn state_of(p: Parser) -> ParseState {
    ParseState {
        files: p.files.deep_view(),
        phase: p.phase,
        old_path: p.old_path@,
        new_path: p.new_path@,
        is_rename: p.is_rename,
        hunks: p.hunks.deep_view(),
        header: p.header,
        lines: p.lines.deep_view(),
        old_next: p.old_next as nat,
        new_next: p.new_next as nat,
    }
}

fn blank_header() -> (h: HunkHeader)
    ensures
        h == no_header(),
{
    HunkHeader { old_start: 0, old_count: 0, new_start: 0, new_count: 0 }
}

fn start_parser() -> (p: Parser)
    ensures
        state_of(p) == initial_state(),
{
    let p = Parser {
        files: Vec::new(),
        phase: Phase::Outside,
        old_path: String::new(),
        new_path: String::new(),
        is_rename: false,
        hunks: Vec::new(),
        header: blank_header(),
        lines: Vec::new(),
        old_next: 0,
        new_next: 0,
    };
    proof {
        lemma_deep_view_empty(p.files);
        lemma_deep_view_empty(p.hunks);
        lemma_deep_view_empty(p.lines);
    }
    p
}

fn add_open_hunk(hunks: Vec<Hunk>, header: HunkHeader, lines: Vec<HunkLine>) -> (r: Vec<Hunk>)
    ensures
        r.deep_view() == hunks.deep_view().push(
            HunkView {
                old_start: header.old_start as nat,
                old_count: header.old_count as nat,
                new_start: header.new_start as nat,
                new_count: header.new_count as nat,
                lines: lines.deep_view(),
            },
        ),
{
    let mut r = hunks;
    let hunk = Hunk {
        old_start: header.old_start,
        old_count: header.old_count,
        new_start: header.new_start,
        new_count: header.new_count,
        lines,
    };
    r.push(hunk);
    proof {
        lemma_deep_view_push(hunks, r, hunk);
    }
    r
}

fn finish_section(p: Parser) -> (r: Result<Vec<FileDiff>, DiffFault>)
    ensures
        match close_section(state_of(p)) {
            Ok(files) => r matches Ok(v) && v.deep_view() == files,
            Err(fault) => r matches Err(e) && e == fault,
        },
{
    let Parser { files, phase, old_path, new_path, is_rename, hunks, header, lines, .. } = p;
    let mut out = files;
    match phase {
        Phase::Outside => Ok(out),
        Phase::Binary => {
            let hunks: Vec<Hunk> = Vec::new();
            let file = FileDiff { old_path, new_path, is_rename, is_binary: true, hunks };
            out.push(file);
            proof {
                lemma_deep_view_empty(hunks);
                lemma_deep_view_push(files, out, file);
            }
            Ok(out)
        },
        Phase::InHunk => {
            let hunks = add_open_hunk(hunks, header, lines);
            let file = FileDiff { old_path, new_path, is_rename, is_binary: false, hunks };
            out.push(file);
            proof {
                lemma_deep_view_push(files, out, file);
            }
            Ok(out)
        },
        _ => Err(DiffFault::MissingHunk),
    }
}

fn at_section_header(line: &Vec<char>) -> (b: bool)
    ensures
        b == is_section_header(line@),
{
    let n = "diff --git".unicode_len();
    starts_with(line, "diff --git") && (line.len() == n || line[n] == ' ')
}

fn read_path(line: &Vec<char>, from: usize, to: usize, side: char) -> (s: String)
    requires
        from <= to <= line.len(),
    ensures
        s@ == strip_side(line@.subrange(from as int, to as int), side),
{
    let ghost token = line@.subrange(from as int, to as int);
    if to - from >= 2 && line[from] == side && line[from + 1] == '/' {
        proof {
            assert(token.subrange(2, token.len() as int) =~= line@.subrange(from + 2, to as int));
        }
        string_of(line, from + 2, to)
    } else {
        string_of(line, from, to)
    }
}

fn start_section(files: Vec<FileDiff>, line: &Vec<char>) -> (r: Result<Parser, DiffFault>)
    requires
        is_section_header(line@),
    ensures
        match open_section(files.deep_view(), line@) {
            Ok(s) => r matches Ok(q) && state_of(q) == s,
            Err(fault) => r matches Err(e) && e == fault,
        },
{
    let n = "diff --git".unicode_len();
    let a0 = find_token_start(line, n);
    let a1 = find_token_end(line, a0);
    let b0 = find_token_start(line, a1);
    let b1 = find_token_end(line, b0);
    if a0 < a1 && b0 < b1 {
        let old_path = read_path(line, a0, a1, 'a');
        let new_path = read_path(line, b0, b1, 'b');
        let q = Parser {
            files,
            phase: Phase::Preamble,
            old_path,
            new_path,
            is_rename: false,
            hunks: Vec::new(),
            header: blank_header(),
            lines: Vec::new(),
            old_next: 0,
            new_next: 0,
        };
        proof {
            lemma_deep_view_empty(q.hunks);
            lemma_deep_view_empty(q.lines);
        }
        Ok(q)
    } else {
        Err(DiffFault::TruncatedHeader)
    }
}

fn start_hunk(p: Parser, hunks: Vec<Hunk>, line: &Vec<char>) -> (r: Result<Parser, DiffFault>)
    ensures
        match open_hunk(state_of(p), hunks.deep_view(), line@) {
            Ok(s) => r matches Ok(q) && state_of(q) == s,
            Err(fault) => r matches Err(e) && e == fault,
        },
{
    match parse_hunk_header(line) {
        None => Err(DiffFault::MalformedHunkHeader),
        Some(header) => {
            let Parser { files, old_path, new_path, is_rename, .. } = p;
            let q = Parser {
                files,
                phase: Phase::InHunk,
                old_path,
                new_path,
                is_rename,
                hunks,
                header,
                lines: Vec::new(),
                old_next: header.old_start,
                new_next: header.new_start,
            };
            proof {
                lemma_deep_view_empty(q.lines);
            }
            Ok(q)
        },
    }
}

fn read_body_line(p: Parser, line: &Vec<char>) -> (r: Result<Parser, DiffFault>)
    ensures
        match body_line(state_of(p), line@) {
            Ok(s) => r matches Ok(q) && state_of(q) == s,
            Err(fault) => r matches Err(e) && e == fault,
        },
{
    if line.len() == 0 {
        return Err(DiffFault::UnexpectedLine);
    }
    let c = line[0];
    if c == '\\' {
        return Ok(p);
    }
    let line_type = if c == ' ' {
        LineType::Context
    } else if c == '+' {
        LineType::Added
    } else if c == '-' {
        LineType::Removed
    } else {
        return Err(DiffFault::UnexpectedLine);
    };
    let moves_old = line_type != LineType::Added;
    let moves_new = line_type != LineType::Removed;
    if (moves_old && p.old_next == usize::MAX) || (moves_new && p.new_next == usize::MAX) {
        return Err(DiffFault::LineNumberOverflow);
    }
    let Parser {
        files,
        phase,
        old_path,
        new_path,
        is_rename,
        hunks,
        header,
        lines,
        old_next,
        new_next,
    } = p;
    let content = string_of(line, 1, line.len());
    let item = HunkLine { line_type, content, old_line: old_next, new_line: new_next };
    let mut all = lines;
    all.push(item);
    proof {
        lemma_deep_view_push(lines, all, item);
    }
    Ok(
        Parser {
            files,
            phase,
            old_path,
            new_path,
            is_rename,
            hunks,
            header,
            lines: all,
            old_next: if moves_old {
                old_next + 1
            } else {
                old_next
            },
            new_next: if moves_new {
                new_next + 1
            } else {
                new_next
            },
        },
    )
}

fn with_phase(p: Parser, phase: Phase) -> (q: Parser)
    ensures
        state_of(q) == (ParseState { phase, ..state_of(p) }),
{
    let Parser { files, old_path, new_path, is_rename, hunks, header, lines, old_next, new_next, .. } =
        p;
    Parser { files, phase, old_path, new_path, is_rename, hunks, header, lines, old_next, new_next }
}

fn with_rename(p: Parser) -> (q: Parser)
    ensures
        state_of(q) == (ParseState { is_rename: true, ..state_of(p) }),
{
    let Parser { files, phase, old_path, new_path, hunks, header, lines, old_next, new_next, .. } =
        p;
    Parser {
        files,
        phase,
        old_path,
        new_path,
        is_rename: true,
        hunks,
        header,
        lines,
        old_next,
        new_next,
    }
}

fn without_hunks(p: Parser) -> (r: (Parser, Vec<Hunk>))
    ensures
        r.1 == p.hunks,
        state_of(r.0) == (ParseState { hunks: Seq::empty(), ..state_of(p) }),
{
    let Parser { files, phase, old_path, new_path, is_rename, hunks, header, lines, old_next, new_next } =
        p;
    let rest = Parser {
        files,
        phase,
        old_path,
        new_path,
        is_rename,
        hunks: Vec::new(),
        header,
        lines,
        old_next,
        new_next,
    };
    proof {
        lemma_deep_view_empty(rest.hunks);
    }
    (rest, hunks)
}

fn without_body(p: Parser) -> (r: (Parser, Vec<Hunk>, Vec<HunkLine>))
    ensures
        r.1 == p.hunks,
        r.2 == p.lines,
        state_of(r.0) == (ParseState { hunks: Seq::empty(), lines: Seq::empty(), ..state_of(p) }),
{
    let Parser { files, phase, old_path, new_path, is_rename, hunks, header, lines, old_next, new_next } =
        p;
    let rest = Parser {
        files,
        phase,
        old_path,
        new_path,
        is_rename,
        hunks: Vec::new(),
        header,
        lines: Vec::new(),
        old_next,
        new_next,
    };
    proof {
        lemma_deep_view_empty(rest.hunks);
        lemma_deep_view_empty(rest.lines);
    }
    (rest, hunks, lines)
}

fn advance(p: Parser, line: &Vec<char>) -> (r: Result<Parser, DiffFault>)
    ensures
        match step(state_of(p), line@) {
            Ok(s) => r matches Ok(q) && state_of(q) == s,
            Err(fault) => r matches Err(e) && e == fault,
        },
{
    if at_section_header(line) {
        return match finish_section(p) {
            Err(fault) => Err(fault),
            Ok(files) => start_section(files, line),
        };
    }
    match p.phase {
        Phase::Outside => Ok(p),
        Phase::Binary => Ok(p),
        Phase::Preamble => {
            if starts_with(line, "Binary files ") && ends_with(line, "differ") {
                Ok(with_phase(p, Phase::Binary))
            } else if starts_with(line, "similarity index ") || starts_with(line, "rename from ")
                || starts_with(line, "rename to ") {
                Ok(with_rename(p))
            } else if starts_with(line, "--- ") {
                Ok(with_phase(p, Phase::ExpectNewPath))
            } else if starts_with(line, "+++ ") || starts_with(line, "@@") {
                Err(DiffFault::MissingPathLine)
            } else {
                Ok(p)
            }
        },
        Phase::ExpectNewPath => {
            if starts_with(line, "+++ ") {
                Ok(with_phase(p, Phase::ExpectHunk))
            } else {
                Err(DiffFault::MissingPathLine)
            }
        },
        Phase::ExpectHunk => {
            if starts_with(line, "@@") {
                let (rest, hunks) = without_hunks(p);
                start_hunk(rest, hunks, line)
            } else {
                Err(DiffFault::MissingHunk)
            }
        },
        Phase::InHunk => {
            if starts_with(line, "@@") {
                let header = p.header;
                let (rest, hunks, lines) = without_body(p);
                start_hunk(rest, add_open_hunk(hunks, header, lines), line)
            } else {
                read_body_line(p, line)
            }
        },
    }
}

/// Parses a unified diff into its file sections.
///
/// The text is read line by line. The result is what [`parsed`] says of the
/// text: the sections in their order, or an error whose message names the
/// first fault and its line.
pub fn parse_diff(text: &str) -> (r: Result<Vec<FileDiff>, DiffParseError>)
    ensures
        match parsed(text@) {
            Ok(files) => r matches Ok(v) && v.deep_view() == files,
            Err((fault, line)) => r matches Err(e) && e.message@ == fault_message(fault, line),
        },
        r matches Ok(v) ==> forall|i: int| 0 <= i < v.len() ==> (#[trigger] v[i])@.well_formed(),
{
    let chars = chars_of(text);
    let lines = lines_of(&chars);
    let ghost all = views_of(lines@);
    let mut p = start_parser();
    let mut i: usize = 0;
    while i < lines.len()
        invariant
            i <= lines.len(),
            all == views_of(lines@),
            parsed(text@) == run(state_of(p), all, i as int),
        decreases lines.len() - i,
    {
        assert(all[i as int] == lines[i as int]@);
        match advance(p, &lines[i]) {
            Err(fault) => {
                return Err(diff_error(fault, i + 1));
            },
            Ok(q) => {
                p = q;
            },
        }
        i += 1;
    }
    match finish_section(p) {
        Ok(files) => {
            proof {
                lemma_parsed_well_formed(text@);
            }
            assert forall|i: int| 0 <= i < files.len() implies (#[trigger] files[i])@.well_formed() by {
                assert(parsed(text@)->Ok_0[i] == files[i]@);
            }
            Ok(files)
        },
        Err(fault) => Err(diff_error(fault, lines.len())),
    }
}


/// What holds of the parser's state between any two lines: the closed
/// sections are well formed, the closed hunks are numbered from their
/// headers, and in a hunk's body the lines read so far are numbered from the
/// open header, with both counters where the body has moved them.
pub open spec fn state_well_formed(s: ParseState) -> bool {
    &&& forall|i: int| 0 <= i < s.files.len() ==> (#[trigger] s.files[i]).well_formed()
    &&& forall|i: int| 0 <= i < s.hunks.len() ==> (#[trigger] s.hunks[i]).well_numbered()
    &&& s.phase == Phase::InHunk ==> {
        &&& open_hunk_view(s).well_numbered()
        &&& s.old_next == s.header.old_start + old_advance(s.lines)
        &&& s.new_next == s.header.new_start + new_advance(s.lines)
    }
}

/// Closing the open section of a well-formed state gives well-formed sections.
pub proof fn lemma_close_section_well_formed(s: ParseState)
    requires
        state_well_formed(s),
        close_section(s) is Ok,
    ensures
        forall|i: int|
            0 <= i < close_section(s)->Ok_0.len() ==> (#[trigger] close_section(
                s,
            )->Ok_0[i]).well_formed(),
{
    let files = close_section(s)->Ok_0;
    assert forall|i: int| 0 <= i < files.len() implies (#[trigger] files[i]).well_formed() by {
        if i < s.files.len() {
            assert(files[i] == s.files[i]);
        } else if s.phase == Phase::InHunk {
            let hunks = s.hunks.push(open_hunk_view(s));
            assert forall|k: int| 0 <= k < hunks.len() implies (#[trigger] hunks[k]).well_numbered() by {
                if k < s.hunks.len() {
                    assert(hunks[k] == s.hunks[k]);
                }
            }
        }
    }
}

/// A step keeps a state well formed.
pub proof fn lemma_step_well_formed(s: ParseState, line: Seq<char>)
    requires
        state_well_formed(s),
        step(s, line) is Ok,
    ensures
        state_well_formed(step(s, line)->Ok_0),
{
    let next = step(s, line)->Ok_0;
    if is_section_header(line) {
        lemma_close_section_well_formed(s);
    } else if s.phase == Phase::InHunk {
        if has_prefix(line, "@@"@) {
            let hunks = s.hunks.push(open_hunk_view(s));
            assert forall|k: int| 0 <= k < hunks.len() implies (#[trigger] hunks[k]).well_numbered() by {
                if k < s.hunks.len() {
                    assert(hunks[k] == s.hunks[k]);
                }
            }
            assert(next.lines.len() == 0);
            assert(old_advance(next.lines) == 0 && new_advance(next.lines) == 0);
        } else if line[0] != '\\' {
            let added = next.lines.last();
            assert(next.lines =~= s.lines.push(added));
            lemma_count_of_push(s.lines, added, LineType::Context);
            lemma_count_of_push(s.lines, added, LineType::Added);
            lemma_count_of_push(s.lines, added, LineType::Removed);
            lemma_numbered_push(
                s.lines,
                added,
                s.header.old_start as nat,
                s.header.new_start as nat,
            );
        }
    } else if s.phase == Phase::ExpectHunk {
        assert(next.lines.len() == 0);
        assert(old_advance(next.lines) == 0 && new_advance(next.lines) == 0);
    }
}

/// Reading on from a well-formed state gives well-formed sections.
pub proof fn lemma_run_well_formed(s: ParseState, lines: Seq<Seq<char>>, i: int)
    requires
        state_well_formed(s),
        run(s, lines, i) is Ok,
    ensures
        forall|k: int|
            0 <= k < run(s, lines, i)->Ok_0.len() ==> (#[trigger] run(
                s,
                lines,
                i,
            )->Ok_0[k]).well_formed(),
    decreases lines.len() - i,
{
    if i < 0 || i >= lines.len() {
        lemma_close_section_well_formed(s);
    } else {
        lemma_step_well_formed(s, lines[i]);
        lemma_run_well_formed(step(s, lines[i])->Ok_0, lines, i + 1);
    }
}

/// Every section that a diff text holds is well formed: a binary section has
/// no hunks, and in every hunk each line carries the number that the two
/// counters give it, started at the header's numbers.
pub proof fn lemma_parsed_well_formed(text: Seq<char>)
    requires
        parsed(text) is Ok,
    ensures
        forall|k: int|
            0 <= k < parsed(text)->Ok_0.len() ==> (#[trigger] parsed(text)->Ok_0[k]).well_formed(),
{
    lemma_run_well_formed(initial_state(), crate::text::split_lines(text), 0);
}

/// The empty text holds no section.
pub proof fn lemma_parsed_empty()
    ensures
        parsed(Seq::empty()) == Ok::<Seq<FileDiffView>, (DiffFault, nat)>(Seq::empty()),
{
    assert(crate::text::split_lines(Seq::<char>::empty()) =~= Seq::<Seq<char>>::empty());
}

/// A line that starts with a backslash, such as the marker of a missing line
/// feed at the end of a file, leaves the state of a hunk's body as it is: it
/// adds no line and moves no counter.
pub proof fn lemma_marker_changes_nothing(s: ParseState, line: Seq<char>)
    requires
        s.phase == Phase::InHunk,
        line.len() > 0,
        line[0] == '\\',
    ensures
        step(s, line) == Ok::<ParseState, DiffFault>(s),
{
    reveal_strlit("diff --git");
    reveal_strlit("@@");
    if is_section_header(line) {
        assert(line.subrange(0, 10)[0] == 'd');
    }
    if has_prefix(line, "@@"@) {
        assert(line.subrange(0, 2)[0] == '@');
    }
}

} // verus!
