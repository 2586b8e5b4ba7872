use vstd::prelude::*;

use crate::types::classification::CodeType;

verus! {

/// A range of lines, both ends included, counted from 1.
#[derive(Debug, Clone, Copy, PartialEq, Eq, Hash, Structural)]
pub struct LineSpan {
    pub start: usize,
    pub end: usize,
}

impl LineSpan {
    /// The first line exists and the last is not before it.
    pub open spec fn valid(self) -> bool {
        1 <= self.start <= self.end
    }

    /// The line `line` lies in the span.
    pub open spec fn holds(self, line: nat) -> bool {
        self.start <= line <= self.end
    }

    /// Every line of `inner` lies in the span.
    pub open spec fn encloses(self, inner: LineSpan) -> bool {
        self.start <= inner.start && inner.end <= self.end
    }

    /// The two spans share a line.
    pub open spec fn meets(self, other: LineSpan) -> bool {
        self.start <= other.end && other.start <= self.end
    }

    /// The span from `start` to `end`, where these make one.
    pub fn new(start: usize, end: usize) -> (span: Option<LineSpan>)
        ensures
            span == (if 1 <= start <= end {
                Some(LineSpan { start, end })
            } else {
                None
            }),
            span matches Some(s) ==> s.valid(),
    {
        if 1 <= start && start <= end {
            Some(LineSpan { start, end })
        } else {
            None
        }
    }

    /// Whether a line lies in the span.
    pub fn contains(&self, line: usize) -> (b: bool)
        ensures
            b == self.holds(line as nat),
    {
        self.start <= line && line <= self.end
    }

    /// Whether every line of `inner` lies in the span.
    pub fn contains_span(&self, inner: &LineSpan) -> (b: bool)
        ensures
            b == self.encloses(*inner),
    {
        self.start <= inner.start && inner.end <= self.end
    }

    /// Whether the two spans share a line.
    pub fn overlaps(&self, other: &LineSpan) -> (b: bool)
        ensures
            b == self.meets(*other),
    {
        self.start <= other.end && other.start <= self.end
    }
}

/// Who can see a unit.
#[derive(Debug, Clone, Copy, PartialEq, Eq, Hash, Structural)]
pub enum Visibility {
    /// Visible everywhere.
    Public,
    /// Visible in a module and below it.
    ModuleScoped,
    /// Visible where it is declared.
    Private,
}

/// What a unit is.
#[derive(Debug, Clone, Copy, PartialEq, Eq, Hash, Structural)]
pub enum SemanticUnitKind {
    Function,
    TypeDefinition,
    InterfaceDeclaration,
    ImplementationBlock,
    Module,
    /// The entry function of a build script.
    BuildScriptEntry,
}

/// A declaration with its place in the source.
///
/// `kind` is `None` only for what stands for removed lines whose unit is not
/// known; every unit that is read from a source has a kind.
#[derive(Debug, Clone, PartialEq, Eq)]
pub struct SemanticUnit {
    pub kind: Option<SemanticUnitKind>,
    /// The declared name; empty for an implementation block without one.
    pub name: String,
    pub visibility: Visibility,
    pub span: LineSpan,
    pub code_type: CodeType,
}

/// The mathematical value of a [`SemanticUnit`].
pub struct SemanticUnitView {
    pub kind: Option<SemanticUnitKind>,
    pub name: Seq<char>,
    pub visibility: Visibility,
    pub span: LineSpan,
    pub code_type: CodeType,
}

impl View for SemanticUnit {
    type V = SemanticUnitView;

    open spec fn view(&self) -> SemanticUnitView {
        SemanticUnitView {
            kind: self.kind,
            name: self.name@,
            visibility: self.visibility,
            span: self.span,
            code_type: self.code_type,
        }
    }
}

impl DeepView for SemanticUnit {
    type V = SemanticUnitView;

    open spec fn deep_view(&self) -> SemanticUnitView {
        self@
    }
}

impl SemanticUnit {
    /// A copy of the unit.
    pub fn duplicate(&self) -> (u: SemanticUnit)
        ensures
            u@ == self@,
    {
        SemanticUnit {
            kind: self.kind,
            name: self.name.clone(),
            visibility: self.visibility,
            span: self.span,
            code_type: self.code_type,
        }
    }
}


impl crate::order::Positioned for SemanticUnit {
    open spec fn key_of(v: SemanticUnitView) -> nat {
        v.span.start as nat
    }

    fn start_line(&self) -> (n: usize) {
        self.span.start
    }
}

} // verus!
