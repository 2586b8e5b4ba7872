use vstd::prelude::*;

use crate::analysis::syntax::{forest_view, node_view, Modifier, NodeKind, NodeView, SyntaxNode};
use crate::classifier::{classify, code_type_of, is_build_script, path_is_build_script, text_is, Annotation};
use crate::order::{sort_by_start, stable_sorted};
use crate::text::{chars_of, copy_range, lemma_deep_view_push, views_of};
use crate::types::semantic_unit::{
    LineSpan, SemanticUnit, SemanticUnitKind, SemanticUnitView, Visibility,
};

verus! {

/// The visibility that a modifier gives: none written is private, one that
/// names a module is module-scoped, the plain one is public.
pub open spec fn visibility_of(modifier: Modifier) -> Visibility {
    match modifier {
        Modifier::Inherited => Visibility::Private,
        Modifier::Restricted => Visibility::ModuleScoped,
        Modifier::Public => Visibility::Public,
    }
}

/// The kind of the unit that a declaration makes. The function `main` at the
/// top of a build script is the script's entry.
pub open spec fn unit_kind(kind: NodeKind, name: Seq<char>, top: bool, path: Seq<char>) -> SemanticUnitKind {
    match kind {
        NodeKind::Function => if top && name == "main"@ && is_build_script(path) {
            SemanticUnitKind::BuildScriptEntry
        } else {
            SemanticUnitKind::Function
        },
        NodeKind::TypeDefinition => SemanticUnitKind::TypeDefinition,
        NodeKind::InterfaceDeclaration => SemanticUnitKind::InterfaceDeclaration,
        NodeKind::ImplementationBlock => SemanticUnitKind::ImplementationBlock,
        NodeKind::Module => SemanticUnitKind::Module,
    }
}

/// The unit that one declaration makes, where `enclosing` holds the
/// annotations of the scopes around it and `modules` the names of the
/// modules around it, the outermost first.
pub open spec fn unit_of(
    node: NodeView,
    top: bool,
    enclosing: Seq<Annotation>,
    modules: Seq<Seq<char>>,
    path: Seq<char>,
) -> SemanticUnitView {
    SemanticUnitView {
        kind: Some(unit_kind(node.kind, node.name, top, path)),
        name: node.name,
        visibility: visibility_of(node.modifier),
        span: LineSpan { start: node.first_line, end: node.last_line },
        code_type: code_type_of(node.annotations, enclosing, modules, path),
    }
}

/// The module names around what stands inside `node`.
pub open spec fn inner_modules(node: NodeView, modules: Seq<Seq<char>>) -> Seq<Seq<char>> {
    if node.kind == NodeKind::Module {
        modules.push(node.name)
    } else {
        modules
    }
}

/// The units of a declaration and of all that stands inside it: the
/// declaration first, then its children from first to last, each with what is
/// inside it.
pub open spec fn node_units(
    node: NodeView,
    top: bool,
    enclosing: Seq<Annotation>,
    modules: Seq<Seq<char>>,
    path: Seq<char>,
) -> Seq<SemanticUnitView>
    decreases node,
{
    seq![unit_of(node, top, enclosing, modules, path)] + forest_units(
        node.children,
        false,
        enclosing + node.annotations,
        inner_modules(node, modules),
        path,
    )
}

/// The units of a sequence of declarations that stand side by side.
pub open spec fn forest_units(
    nodes: Seq<NodeView>,
    top: bool,
    enclosing: Seq<Annotation>,
    modules: Seq<Seq<char>>,
    path: Seq<char>,
) -> Seq<SemanticUnitView>
    decreases nodes,
{
    if nodes.len() == 0 {
        Seq::empty()
    } else {
        forest_units(nodes.drop_last(), top, enclosing, modules, path) + node_units(
            nodes.last(),
            top,
            enclosing,
            modules,
            path,
        )
    }
}

/// The units of a source file with the top-level declarations `nodes`, in
/// the order of their first lines.
pub open spec fn extracted(nodes: Seq<NodeView>, path: Seq<char>) -> Seq<SemanticUnitView> {
    extracted_within(nodes, Seq::empty(), path)
}

/// The units of a source file with the top-level declarations `nodes`, where
/// the file as a whole carries the annotations `enclosing`, in the order of
/// their first lines.
pub open spec fn extracted_within(
    nodes: Seq<NodeView>,
    enclosing: Seq<Annotation>,
    path: Seq<char>,
) -> Seq<SemanticUnitView> {
    stable_sorted::<SemanticUnit>(forest_units(nodes, true, enclosing, Seq::empty(), path))
}

fn visibility_for(modifier: Modifier) -> (v: Visibility)
    ensures
        v == visibility_of(modifier),
{
    match modifier {
        Modifier::Inherited => Visibility::Private,
        Modifier::Restricted => Visibility::ModuleScoped,
        Modifier::Public => Visibility::Public,
    }
}

fn joined(a: &Vec<Annotation>, b: &Vec<Annotation>) -> (r: Vec<Annotation>)
    ensures
        r@ == a@ + b@,
{
    let mut r: Vec<Annotation> = Vec::new();
    let mut i: usize = 0;
    while i < a.len()
        invariant
            i <= a.len(),
            r@ == a@.take(i as int),
        decreases a.len() - i,
    {
        r.push(a[i]);
        i += 1;
    }
    let mut j: usize = 0;
    while j < b.len()
        invariant
            j <= b.len(),
            r@ == a@ + b@.take(j as int),
        decreases b.len() - j,
    {
        r.push(b[j]);
        j += 1;
    }
    r
}

fn modules_inside(node: &SyntaxNode, modules: &Vec<Vec<char>>) -> (r: Vec<Vec<char>>)
    ensures
        views_of(r@) == inner_modules(node_view(*node), views_of(modules@)),
{
    let mut r: Vec<Vec<char>> = Vec::new();
    let mut i: usize = 0;
    while i < modules.len()
        invariant
            i <= modules.len(),
            views_of(r@) == views_of(modules@).take(i as int),
        decreases modules.len() - i,
    {
        let copy = copy_range(&modules[i], 0, modules[i].len());
        proof {
            assert(copy@ =~= modules@[i as int]@);
            assert(views_of(r@.push(copy)) =~= views_of(r@).push(copy@));
            assert(views_of(modules@)[i as int] == modules@[i as int]@);
            assert(views_of(modules@).take(i as int).push(copy@) =~= views_of(modules@).take(
                i + 1,
            ));
        }
        r.push(copy);
        i += 1;
    }
    proof {
        assert(views_of(modules@).take(i as int) =~= views_of(modules@));
    }
    if node.kind == NodeKind::Module {
        let name = chars_of(node.name.as_str());
        proof {
            assert(views_of(r@.push(name)) =~= views_of(modules@).push(name@));
        }
        r.push(name);
    }
    r
}

fn unit_for(
    node: &SyntaxNode,
    top: bool,
    enclosing: &Vec<Annotation>,
    modules: &Vec<Vec<char>>,
    path: &Vec<char>,
) -> (u: SemanticUnit)
    ensures
        u@ == unit_of(node_view(*node), top, enclosing@, views_of(modules@), path@),
{
    let kind = match node.kind {
        NodeKind::Function => {
            let name = chars_of(node.name.as_str());
            if top && text_is(&name, "main") && path_is_build_script(path) {
                SemanticUnitKind::BuildScriptEntry
            } else {
                SemanticUnitKind::Function
            }
        },
        NodeKind::TypeDefinition => SemanticUnitKind::TypeDefinition,
        NodeKind::InterfaceDeclaration => SemanticUnitKind::InterfaceDeclaration,
        NodeKind::ImplementationBlock => SemanticUnitKind::ImplementationBlock,
        NodeKind::Module => SemanticUnitKind::Module,
    };
    SemanticUnit {
        kind: Some(kind),
        name: node.name.clone(),
        visibility: visibility_for(node.modifier),
        span: LineSpan { start: node.first_line, end: node.last_line },
        code_type: classify(&node.annotations, enclosing, modules, path),
    }
}

fn walk_node(
    node: &SyntaxNode,
    top: bool,
    enclosing: &Vec<Annotation>,
    modules: &Vec<Vec<char>>,
    path: &Vec<char>,
    out: &mut Vec<SemanticUnit>,
)
    ensures
        final(out).deep_view() == old(out).deep_view() + node_units(
            node_view(*node),
            top,
            enclosing@,
            views_of(modules@),
            path@,
        ),
    decreases node,
{
    let ghost before = *out;
    let unit = unit_for(node, top, enclosing, modules, path);
    out.push(unit);
    proof {
        lemma_deep_view_push(before, *out, unit);
        assert(node_view(*node).children =~= forest_view(node.children@));
    }
    let inner = joined(enclosing, &node.annotations);
    let inner_names = modules_inside(node, modules);
    let ghost middle = *out;
    walk_forest(&node.children, false, &inner, &inner_names, path, out);
    proof {
        let own = unit_of(node_view(*node), top, enclosing@, views_of(modules@), path@);
        let below = forest_units(
            forest_view(node.children@),
            false,
            inner@,
            views_of(inner_names@),
            path@,
        );
        assert(before.deep_view().push(own) + below =~= before.deep_view() + (seq![own] + below));
    }
}

fn walk_forest(
    nodes: &Vec<SyntaxNode>,
    top: bool,
    enclosing: &Vec<Annotation>,
    modules: &Vec<Vec<char>>,
    path: &Vec<char>,
    out: &mut Vec<SemanticUnit>,
)
    ensures
        final(out).deep_view() == old(out).deep_view() + forest_units(
            forest_view(nodes@),
            top,
            enclosing@,
            views_of(modules@),
            path@,
        ),
    decreases nodes,
{
    let ghost before = out.deep_view();
    let ghost forest = forest_view(nodes@);
    let mut i: usize = 0;
    proof {
        assert(before + forest_units(forest.take(0), top, enclosing@, views_of(modules@), path@)
            =~= before);
    }
    while i < nodes.len()
        invariant
            i <= nodes.len(),
            forest == forest_view(nodes@),
            out.deep_view() == before + forest_units(
                forest.take(i as int),
                top,
                enclosing@,
                views_of(modules@),
                path@,
            ),
        decreases nodes.len() - i,
    {
        let ghost done = forest_units(
            forest.take(i as int),
            top,
            enclosing@,
            views_of(modules@),
            path@,
        );
        walk_node(&nodes[i], top, enclosing, modules, path, out);
        proof {
            let next = forest.take(i + 1);
            assert(next.drop_last() =~= forest.take(i as int));
            assert(next.last() == node_view(nodes@[i as int]));
            let more = node_units(next.last(), top, enclosing@, views_of(modules@), path@);
            assert((before + done) + more =~= before + (done + more));
        }
        i += 1;
    }
    proof {
        assert(forest.take(i as int) =~= forest);
    }
}

/// The units of a source file whose syntax tree has the top-level
/// declarations `nodes`: one for each declaration of the tree, ordered by
/// first line. The path of the file decides purposes only, never spans.
pub fn extract_units(nodes: &Vec<SyntaxNode>, path: &str) -> (units: Vec<SemanticUnit>)
    ensures
        units.deep_view() == extracted(forest_view(nodes@), path@),
{
    let enclosing: Vec<Annotation> = Vec::new();
    extract_units_within(nodes, &enclosing, path)
}

/// The units of a source file as [`extract_units`] gives them, where the
/// file as a whole carries the annotations `enclosing`: they count for every
/// declaration as those of a scope around it.
pub fn extract_units_within(
    nodes: &Vec<SyntaxNode>,
    enclosing: &Vec<Annotation>,
    path: &str,
) -> (units: Vec<SemanticUnit>)
    ensures
        units.deep_view() == extracted_within(forest_view(nodes@), enclosing@, path@),
{
    let path_chars = chars_of(path);
    let modules: Vec<Vec<char>> = Vec::new();
    let mut out: Vec<SemanticUnit> = Vec::new();
    proof {
        assert(views_of(modules@) =~= Seq::<Seq<char>>::empty());
        assert(out.deep_view() =~= Seq::<SemanticUnitView>::empty());
    }
    walk_forest(nodes, true, enclosing, &modules, &path_chars, &mut out);
    proof {
        let all = forest_units(forest_view(nodes@), true, enclosing@, views_of(modules@), path@);
        assert(Seq::<SemanticUnitView>::empty() + all =~= all);
    }
    sort_by_start(out)
}

/// The lines of a declaration.
pub open spec fn node_span(node: NodeView) -> LineSpan {
    LineSpan { start: node.first_line, end: node.last_line }
}

/// A declaration ends no earlier than it starts, holds each declaration
/// inside it within its own lines, and those stand side by side.
pub open spec fn well_nested(node: NodeView) -> bool
    decreases node,
{
    &&& node.first_line <= node.last_line
    &&& side_by_side(node.children)
    &&& forall|i: int|
        0 <= i < node.children.len() ==> node_span(node).encloses(
            node_span(#[trigger] node.children[i]),
        )
}

/// Each declaration is well nested and starts behind the end of the one
/// before it.
pub open spec fn side_by_side(nodes: Seq<NodeView>) -> bool
    decreases nodes,
{
    if nodes.len() == 0 {
        true
    } else {
        &&& side_by_side(nodes.drop_last())
        &&& well_nested(nodes.last())
        &&& nodes.len() >= 2 ==> nodes[nodes.len() - 2].last_line < nodes.last().first_line
    }
}

/// Of any two units the later one starts no earlier than the earlier one,
/// and stands either wholly behind it or wholly inside it: the spans of two
/// units never overlap in part.
pub open spec fn nested_or_apart(units: Seq<SemanticUnitView>) -> bool {
    forall|i: int, j: int|
        0 <= i < j < units.len() ==> {
            let a = (#[trigger] units[i]).span;
            let b = (#[trigger] units[j]).span;
            a.start <= b.start && (a.end < b.start || a.encloses(b))
        }
}

/// Every unit lies within the lines from `low` to `high`, and none ends
/// before it starts.
pub open spec fn all_within(units: Seq<SemanticUnitView>, low: int, high: int) -> bool {
    forall|k: int|
        0 <= k < units.len() ==> {
            let s = (#[trigger] units[k]).span;
            low <= s.start <= s.end <= high
        }
}

proof fn lemma_node_units_nested(
    node: NodeView,
    top: bool,
    enclosing: Seq<Annotation>,
    modules: Seq<Seq<char>>,
    path: Seq<char>,
)
    requires
        well_nested(node),
    ensures
        nested_or_apart(node_units(node, top, enclosing, modules, path)),
        all_within(
            node_units(node, top, enclosing, modules, path),
            node.first_line as int,
            node.last_line as int,
        ),
    decreases node,
{
    let own = unit_of(node, top, enclosing, modules, path);
    let inner = forest_units(
        node.children,
        false,
        enclosing + node.annotations,
        inner_modules(node, modules),
        path,
    );
    let all = node_units(node, top, enclosing, modules, path);
    lemma_forest_units_nested(
        node.children,
        false,
        enclosing + node.annotations,
        inner_modules(node, modules),
        path,
    );
    assert(all =~= seq![own] + inner);
    if node.children.len() > 0 {
        assert(node_span(node).encloses(node_span(node.children[0])));
        assert(node_span(node).encloses(node_span(node.children[node.children.len() - 1])));
    }
    assert forall|k: int| 0 <= k < all.len() implies {
        let s = (#[trigger] all[k]).span;
        node.first_line <= s.start <= s.end <= node.last_line
    } by {
        if k > 0 {
            assert(all[k] == inner[k - 1]);
        }
    }
    assert forall|i: int, j: int| 0 <= i < j < all.len() implies {
        let a = (#[trigger] all[i]).span;
        let b = (#[trigger] all[j]).span;
        a.start <= b.start && (a.end < b.start || a.encloses(b))
    } by {
        assert(all[j] == inner[j - 1]);
        if i > 0 {
            assert(all[i] == inner[i - 1]);
        }
    }
}

proof fn lemma_forest_units_nested(
    nodes: Seq<NodeView>,
    top: bool,
    enclosing: Seq<Annotation>,
    modules: Seq<Seq<char>>,
    path: Seq<char>,
)
    requires
        side_by_side(nodes),
    ensures
        nested_or_apart(forest_units(nodes, top, enclosing, modules, path)),
        nodes.len() > 0 ==> nodes[0].first_line <= nodes[nodes.len() - 1].last_line && all_within(
            forest_units(nodes, top, enclosing, modules, path),
            nodes[0].first_line as int,
            nodes[nodes.len() - 1].last_line as int,
        ),
        nodes.len() == 0 ==> forest_units(nodes, top, enclosing, modules, path).len() == 0,
    decreases nodes,
{
    if nodes.len() > 0 {
        let front = nodes.drop_last();
        let last = nodes.last();
        let before = forest_units(front, top, enclosing, modules, path);
        let after = node_units(last, top, enclosing, modules, path);
        let all = forest_units(nodes, top, enclosing, modules, path);
        lemma_forest_units_nested(front, top, enclosing, modules, path);
        lemma_node_units_nested(last, top, enclosing, modules, path);
        assert(all =~= before + after);
        assert(well_nested(last));
        assert(last.first_line <= last.last_line);
        assert(all_within(after, last.first_line as int, last.last_line as int));
        if front.len() > 0 {
            assert(front[0] == nodes[0]);
            assert(front[front.len() - 1] == nodes[nodes.len() - 2]);
            assert(nodes[nodes.len() - 2].last_line < last.first_line);
            assert(all_within(
                before,
                nodes[0].first_line as int,
                nodes[nodes.len() - 2].last_line as int,
            ));
            assert(nodes[0].first_line <= nodes[nodes.len() - 2].last_line);
        } else {
            assert(before.len() == 0);
            assert(nodes[0] == last);
        }
        assert(nodes[0].first_line <= last.first_line);
        assert forall|k: int| 0 <= k < all.len() implies {
            let s = (#[trigger] all[k]).span;
            nodes[0].first_line <= s.start <= s.end <= last.last_line
        } by {
            if k < before.len() {
                assert(all[k] == before[k]);
                let s = before[k].span;
                assert(nodes[0].first_line <= s.start <= s.end <= nodes[nodes.len() - 2].last_line);
            } else {
                assert(all[k] == after[k - before.len()]);
                let s = after[k - before.len()].span;
                assert(last.first_line <= s.start <= s.end <= last.last_line);
            }
        }
        assert(all_within(all, nodes[0].first_line as int, last.last_line as int));
        assert forall|i: int, j: int| 0 <= i < j < all.len() implies {
            let a = (#[trigger] all[i]).span;
            let b = (#[trigger] all[j]).span;
            a.start <= b.start && (a.end < b.start || a.encloses(b))
        } by {
            if j < before.len() {
                assert(all[i] == before[i] && all[j] == before[j]);
            } else if i >= before.len() {
                assert(all[i] == after[i - before.len()]);
                assert(all[j] == after[j - before.len()]);
            } else {
                assert(all[i] == before[i]);
                assert(all[j] == after[j - before.len()]);
                let a = before[i].span;
                let b = after[j - before.len()].span;
                assert(a.start <= a.end <= nodes[nodes.len() - 2].last_line);
                assert(last.first_line <= b.start);
                assert(a.end < b.start);
            }
        }
    }
}

/// In the units of a tree whose declarations are well nested and stand side
/// by side, the spans of two units never overlap in part: a unit stands
/// wholly inside each unit around it and wholly apart from every other. The
/// units then come in the order of the tree: a declaration first, then what
/// is inside it.
pub proof fn lemma_extracted_nested(
    nodes: Seq<NodeView>,
    enclosing: Seq<Annotation>,
    path: Seq<char>,
)
    requires
        side_by_side(nodes),
    ensures
        nested_or_apart(extracted_within(nodes, enclosing, path)),
        extracted_within(nodes, enclosing, path) == forest_units(
            nodes,
            true,
            enclosing,
            Seq::empty(),
            path,
        ),
{
    let units = forest_units(nodes, true, enclosing, Seq::empty(), path);
    lemma_forest_units_nested(nodes, true, enclosing, Seq::empty(), path);
    assert(crate::order::is_sorted::<SemanticUnit>(units)) by {
        assert forall|i: int, j: int| 0 <= i <= j < units.len() implies units[i].span.start
            <= units[j].span.start by {}
    }
    crate::order::lemma_sorted_is_fixed::<SemanticUnit>(units);
}

/// Two units stand at the same place under the same name.
pub open spec fn same_place() -> spec_fn(SemanticUnitView, SemanticUnitView) -> bool {
    |u: SemanticUnitView, v: SemanticUnitView|
        u.span == v.span && u.name == v.name && u.visibility == v.visibility
}

/// A unit has a kind.
pub open spec fn has_kind() -> spec_fn(SemanticUnitView) -> bool {
    |u: SemanticUnitView| u.kind is Some
}

proof fn lemma_node_units_places(
    node: NodeView,
    top: bool,
    enclosing: Seq<Annotation>,
    modules: Seq<Seq<char>>,
    first: Seq<char>,
    second: Seq<char>,
)
    ensures
        node_units(node, top, enclosing, modules, first).len() == node_units(
            node,
            top,
            enclosing,
            modules,
            second,
        ).len(),
        forall|k: int|
            0 <= k < node_units(node, top, enclosing, modules, first).len() ==> same_place()(
                #[trigger] node_units(node, top, enclosing, modules, first)[k],
                node_units(node, top, enclosing, modules, second)[k],
            ) && has_kind()(node_units(node, top, enclosing, modules, first)[k]),
    decreases node,
{
    lemma_forest_units_places(
        node.children,
        false,
        enclosing + node.annotations,
        inner_modules(node, modules),
        first,
        second,
    );
}

proof fn lemma_forest_units_places(
    nodes: Seq<NodeView>,
    top: bool,
    enclosing: Seq<Annotation>,
    modules: Seq<Seq<char>>,
    first: Seq<char>,
    second: Seq<char>,
)
    ensures
        forest_units(nodes, top, enclosing, modules, first).len() == forest_units(
            nodes,
            top,
            enclosing,
            modules,
            second,
        ).len(),
        forall|k: int|
            0 <= k < forest_units(nodes, top, enclosing, modules, first).len() ==> same_place()(
                #[trigger] forest_units(nodes, top, enclosing, modules, first)[k],
                forest_units(nodes, top, enclosing, modules, second)[k],
            ) && has_kind()(forest_units(nodes, top, enclosing, modules, first)[k]),
    decreases nodes,
{
    if nodes.len() > 0 {
        lemma_forest_units_places(nodes.drop_last(), top, enclosing, modules, first, second);
        lemma_node_units_places(nodes.last(), top, enclosing, modules, first, second);
    }
}

/// The path of the file decides purposes, never places: the units of one
/// tree under two paths are as many, and place by place they have the same
/// span, name and visibility.
pub proof fn lemma_path_leaves_places(
    nodes: Seq<NodeView>,
    enclosing: Seq<Annotation>,
    first: Seq<char>,
    second: Seq<char>,
)
    ensures
        extracted_within(nodes, enclosing, first).len() == extracted_within(
            nodes,
            enclosing,
            second,
        ).len(),
        forall|k: int|
            0 <= k < extracted_within(nodes, enclosing, first).len() ==> same_place()(
                #[trigger] extracted_within(nodes, enclosing, first)[k],
                extracted_within(nodes, enclosing, second)[k],
            ),
{
    let a = forest_units(nodes, true, enclosing, Seq::empty(), first);
    let b = forest_units(nodes, true, enclosing, Seq::empty(), second);
    lemma_forest_units_places(nodes, true, enclosing, Seq::empty(), first, second);
    crate::order::lemma_sorted_alike::<SemanticUnit>(a, b, same_place());
}

/// Every unit of a tree has a kind.
pub proof fn lemma_extracted_have_kinds(
    nodes: Seq<NodeView>,
    enclosing: Seq<Annotation>,
    path: Seq<char>,
)
    ensures
        forall|k: int|
            0 <= k < extracted_within(nodes, enclosing, path).len() ==> (
            #[trigger] extracted_within(nodes, enclosing, path)[k]).kind is Some,
{
    let a = forest_units(nodes, true, enclosing, Seq::empty(), path);
    lemma_forest_units_places(nodes, true, enclosing, Seq::empty(), path, path);
    crate::order::lemma_sorted_keeps::<SemanticUnit>(a, has_kind());
    assert forall|k: int| 0 <= k < extracted_within(nodes, enclosing, path).len() implies (
    #[trigger] extracted_within(nodes, enclosing, path)[k]).kind is Some by {
        assert(has_kind()(extracted_within(nodes, enclosing, path)[k]));
    }
}

} // verus!
