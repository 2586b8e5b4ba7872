use vstd::prelude::*;

use crate::classifier::Annotation;

verus! {

/// The declarations that the analysis looks at.
#[derive(Debug, Clone, Copy, PartialEq, Eq, Hash, Structural)]
pub enum NodeKind {
    Function,
    TypeDefinition,
    InterfaceDeclaration,
    ImplementationBlock,
    Module,
}

/// The visibility modifier that a declaration carries.
#[derive(Debug, Clone, Copy, PartialEq, Eq, Hash, Structural)]
pub enum Modifier {
    /// None is written.
    Inherited,
    /// Public within a module that the modifier names.
    Restricted,
    /// Public.
    Public,
}

/// A declaration in a syntax tree, with the declarations inside it.
#[derive(Debug)]
pub struct SyntaxNode {
    pub kind: NodeKind,
    /// The declared name; empty where the declaration has none.
    pub name: String,
    pub modifier: Modifier,
    pub annotations: Vec<Annotation>,
    /// The line of the first token, counted from 1.
    pub first_line: usize,
    /// The line of the last token.
    pub last_line: usize,
    pub children: Vec<SyntaxNode>,
}

/// The mathematical value of a [`SyntaxNode`].
pub struct NodeView {
    pub kind: NodeKind,
    pub name: Seq<char>,
    pub modifier: Modifier,
    pub annotations: Seq<Annotation>,
    pub first_line: usize,
    pub last_line: usize,
    pub children: Seq<NodeView>,
}

/// The value of a node.
pub open spec fn node_view(node: SyntaxNode) -> NodeView
    decreases node,
{
    NodeView {
        kind: node.kind,
        name: node.name@,
        modifier: node.modifier,
        annotations: node.annotations@,
        first_line: node.first_line,
        last_line: node.last_line,
        children: Seq::new(
            node.children@.len(),
            |i: int|
                if 0 <= i < node.children@.len() {
                    node_view(node.children@[i])
                } else {
                    arbitrary()
                },
        ),
    }
}

/// The values of a sequence of nodes.
pub open spec fn forest_view(nodes: Seq<SyntaxNode>) -> Seq<NodeView> {
    Seq::new(nodes.len(), |i: int| node_view(nodes[i]))
}

} // verus!
