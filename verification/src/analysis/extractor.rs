//! Reading a source text with `syn`: the parser's items are read into the
//! library's own syntax tree, from which the units are taken.
//!
//! What the parser gives for a text, and what it says of each item, has a
//! name here; the tree and the units are stated over those names. The parser
//! keeps its positions in a store of the running thread. That store is
//! emptied before a text is parsed, so positions handed out earlier on the
//! thread lose their meaning, and the functions here are for an ordinary
//! process, not for the inside of a procedural macro.

use quote::ToTokens;
use syn::spanned::Spanned;
use vstd::prelude::*;

use crate::analysis::ast_visitor::{
    extract_units_within, extracted_within, lemma_extracted_nested, nested_or_apart,
    side_by_side,
};
use crate::analysis::mapper::{map_changes, mapped};
use crate::analysis::syntax::{
    forest_view, node_view, Modifier, NodeKind, NodeView, SyntaxNode,
};
use crate::classifier::{text_is, Annotation};
use crate::error::ParseError;
use crate::git::diff_parser::FileDiff;
use crate::text::{chars_of, ends_with, has_suffix};
use crate::types::change::{Change, ChangeView};
use crate::types::semantic_unit::{SemanticUnit, SemanticUnitView};

verus! {

/// `syn::File`: a parsed source file.
#[verifier::external_type_specification]
#[verifier::external_body]
pub struct ExFile(syn::File);

/// `syn::Item`: an item of a parsed source file.
#[verifier::external_type_specification]
#[verifier::external_body]
pub struct ExItem(syn::Item);

/// `syn::ImplItem`: an item inside an implementation block.
#[verifier::external_type_specification]
#[verifier::external_body]
pub struct ExImplItem(syn::ImplItem);

/// `syn::Error`: the error of the parser.
#[verifier::external_type_specification]
#[verifier::external_body]
pub struct ExSyntaxError(syn::Error);

/// The variants of `syn::Item` that the analysis tells apart.
#[derive(Debug, Clone, Copy, PartialEq, Eq, Structural)]
pub enum ItemTag {
    Fn,
    Struct,
    Enum,
    Union,
    Type,
    Trait,
    Impl,
    Mod,
    Other,
}

/// What `syn::parse_file` gives for a text.
pub uninterp spec fn source_parse(text: Seq<char>) -> Result<syn::File, syn::Error>;

/// The message of a `syn::Error`.
pub uninterp spec fn message_of(error: syn::Error) -> Seq<char>;

/// The items of a `syn::File`.
pub uninterp spec fn file_items_of(file: syn::File) -> Seq<syn::Item>;

/// The texts of the attributes of a `syn::File`.
pub uninterp spec fn file_texts_of(file: syn::File) -> Seq<Seq<char>>;

/// The variant of a `syn::Item`.
pub uninterp spec fn tag_of(item: syn::Item) -> ItemTag;

/// The identifier that a `syn::Item` declares.
pub uninterp spec fn name_of(item: syn::Item) -> Seq<char>;

/// The variant of the visibility of a `syn::Item`.
pub uninterp spec fn modifier_of(item: syn::Item) -> Modifier;

/// The texts of the attributes of a `syn::Item`.
pub uninterp spec fn texts_of(item: syn::Item) -> Seq<Seq<char>>;

/// The lines of the first and of the last token of a `syn::Item`.
pub uninterp spec fn token_lines_of(item: syn::Item) -> (usize, usize);

/// The items inside a `syn::Item` that is a module.
pub uninterp spec fn items_in(item: syn::Item) -> Seq<syn::Item>;

/// The items inside a `syn::Item` that is an implementation block.
pub uninterp spec fn members_in(item: syn::Item) -> Seq<syn::ImplItem>;

/// The associated function that a `syn::ImplItem` is, as a free-standing one.
pub uninterp spec fn function_of(member: syn::ImplItem) -> Option<syn::Item>;

/// `proc_macro2::extra::invalidate_current_thread_spans`: empties the
/// thread's store of positions, so that the next text is placed at its start.
#[verifier::external_body]
fn reset_spans() {
    proc_macro2::extra::invalidate_current_thread_spans();
}

/// `syn::parse_file`. Its result depends on the text alone and has the name
/// [`source_parse`].
#[verifier::external_body]
fn parse_source(text: &str) -> (r: Result<syn::File, syn::Error>)
    ensures
        r == source_parse(text@),
{
    syn::parse_file(text)
}

/// The message of a `syn::Error`, through its `Display`; it has the name
/// [`message_of`].
#[verifier::external_body]
fn error_text(error: &syn::Error) -> (s: String)
    ensures
        s@ == message_of(*error),
{
    error.to_string()
}

/// The field `items` of a `syn::File`; it has the name [`file_items_of`].
#[verifier::external_body]
fn file_items(file: &syn::File) -> (items: Vec<syn::Item>)
    ensures
        items@ == file_items_of(*file),
{
    file.items.clone()
}

/// The attributes of a `syn::File`, each as the text of its tokens between
/// the brackets; they have the name [`file_texts_of`].
#[verifier::external_body]
fn file_attribute_texts(file: &syn::File) -> (texts: Vec<String>)
    ensures
        texts.deep_view() == file_texts_of(*file),
{
    file.attrs.iter().map(|a| a.meta.to_token_stream().to_string()).collect()
}

/// The variant of a `syn::Item`; it has the name [`tag_of`].
#[verifier::external_body]
fn item_tag(item: &syn::Item) -> (tag: ItemTag)
    ensures
        tag == tag_of(*item),
{
    match item {
        syn::Item::Fn(_) => ItemTag::Fn,
        syn::Item::Struct(_) => ItemTag::Struct,
        syn::Item::Enum(_) => ItemTag::Enum,
        syn::Item::Union(_) => ItemTag::Union,
        syn::Item::Type(_) => ItemTag::Type,
        syn::Item::Trait(_) => ItemTag::Trait,
        syn::Item::Impl(_) => ItemTag::Impl,
        syn::Item::Mod(_) => ItemTag::Mod,
        _ => ItemTag::Other,
    }
}

/// The identifier that a `syn::Item` declares, as a string; empty for an
/// item without one. It has the name [`name_of`].
#[verifier::external_body]
fn item_name(item: &syn::Item) -> (name: String)
    ensures
        name@ == name_of(*item),
{
    match item {
        syn::Item::Fn(i) => i.sig.ident.to_string(),
        syn::Item::Struct(i) => i.ident.to_string(),
        syn::Item::Enum(i) => i.ident.to_string(),
        syn::Item::Union(i) => i.ident.to_string(),
        syn::Item::Type(i) => i.ident.to_string(),
        syn::Item::Trait(i) => i.ident.to_string(),
        syn::Item::Mod(i) => i.ident.to_string(),
        _ => String::new(),
    }
}

/// The variant of the `syn::Visibility` that a `syn::Item` carries; an item
/// without the field counts as inherited. It has the name [`modifier_of`].
#[verifier::external_body]
fn item_modifier(item: &syn::Item) -> (modifier: Modifier)
    ensures
        modifier == modifier_of(*item),
{
    let vis = match item {
        syn::Item::Fn(i) => &i.vis,
        syn::Item::Struct(i) => &i.vis,
        syn::Item::Enum(i) => &i.vis,
        syn::Item::Union(i) => &i.vis,
        syn::Item::Type(i) => &i.vis,
        syn::Item::Trait(i) => &i.vis,
        syn::Item::Mod(i) => &i.vis,
        _ => &syn::Visibility::Inherited,
    };
    match vis {
        syn::Visibility::Public(_) => Modifier::Public,
        syn::Visibility::Restricted(_) => Modifier::Restricted,
        syn::Visibility::Inherited => Modifier::Inherited,
    }
}

/// The attributes of a `syn::Item`, each as the text of its tokens between
/// the brackets; they have the name [`texts_of`].
#[verifier::external_body]
fn item_attribute_texts(item: &syn::Item) -> (texts: Vec<String>)
    ensures
        texts.deep_view() == texts_of(*item),
{
    let attrs = match item {
        syn::Item::Fn(i) => &i.attrs,
        syn::Item::Struct(i) => &i.attrs,
        syn::Item::Enum(i) => &i.attrs,
        syn::Item::Union(i) => &i.attrs,
        syn::Item::Type(i) => &i.attrs,
        syn::Item::Trait(i) => &i.attrs,
        syn::Item::Impl(i) => &i.attrs,
        syn::Item::Mod(i) => &i.attrs,
        _ => return Vec::new(),
    };
    attrs.iter().map(|a| a.meta.to_token_stream().to_string()).collect()
}

/// The lines of the first and of the last token of a `syn::Item`, from the
/// start and the end of its span; they have the name [`token_lines_of`]. The
/// item has to come from the text that was parsed last on this thread.
#[verifier::external_body]
fn item_lines(item: &syn::Item) -> (lines: (usize, usize))
    ensures
        lines == token_lines_of(*item),
{
    let span = item.span();
    (span.start().line, span.end().line)
}

/// The items inside a module with a body; none for any other `syn::Item`.
/// They have the name [`items_in`].
#[verifier::external_body]
fn module_items(item: &syn::Item) -> (items: Vec<syn::Item>)
    ensures
        items@ == items_in(*item),
{
    match item {
        syn::Item::Mod(m) => match &m.content {
            Some((_, items)) => items.clone(),
            None => Vec::new(),
        },
        _ => Vec::new(),
    }
}

/// The items inside an implementation block; none for any other
/// `syn::Item`. They have the name [`members_in`].
#[verifier::external_body]
fn impl_members(item: &syn::Item) -> (members: Vec<syn::ImplItem>)
    ensures
        members@ == members_in(*item),
{
    match item {
        syn::Item::Impl(i) => i.items.clone(),
        _ => Vec::new(),
    }
}

/// An associated function as a free-standing one, with the same attributes,
/// visibility, signature and body; `None` for any other `syn::ImplItem`. It
/// has the name [`function_of`].
#[verifier::external_body]
fn method_as_item(member: &syn::ImplItem) -> (item: Option<syn::Item>)
    ensures
        item == function_of(*member),
{
    match member {
        syn::ImplItem::Fn(f) => Some(
            syn::Item::Fn(
                syn::ItemFn {
                    attrs: f.attrs.clone(),
                    vis: f.vis.clone(),
                    sig: f.sig.clone(),
                    block: Box::new(f.block.clone()),
                },
            ),
        ),
        _ => None,
    }
}

/// The kind of declaration that an item is, where the analysis looks at it.
pub open spec fn kind_for(tag: ItemTag) -> Option<NodeKind> {
    match tag {
        ItemTag::Fn => Some(NodeKind::Function),
        ItemTag::Struct | ItemTag::Enum | ItemTag::Union | ItemTag::Type => Some(
            NodeKind::TypeDefinition,
        ),
        ItemTag::Trait => Some(NodeKind::InterfaceDeclaration),
        ItemTag::Impl => Some(NodeKind::ImplementationBlock),
        ItemTag::Mod => Some(NodeKind::Module),
        ItemTag::Other => None,
    }
}

/// The kind of declaration that an item is, where the analysis looks at it.
pub fn kind_of(tag: ItemTag) -> (kind: Option<NodeKind>)
    ensures
        kind == kind_for(tag),
{
    match tag {
        ItemTag::Fn => Some(NodeKind::Function),
        ItemTag::Struct | ItemTag::Enum | ItemTag::Union | ItemTag::Type => Some(
            NodeKind::TypeDefinition,
        ),
        ItemTag::Trait => Some(NodeKind::InterfaceDeclaration),
        ItemTag::Impl => Some(NodeKind::ImplementationBlock),
        ItemTag::Mod => Some(NodeKind::Module),
        ItemTag::Other => None,
    }
}

/// A text without its spaces.
pub open spec fn without_spaces(text: Seq<char>) -> Seq<char>
    decreases text.len(),
{
    if text.len() == 0 {
        text
    } else if text.last() == ' ' {
        without_spaces(text.drop_last())
    } else {
        without_spaces(text.drop_last()).push(text.last())
    }
}

/// What an attribute says, from the text between its brackets with the
/// spaces left out: `test`, or a path that ends in `::test`, marks a test;
/// `cfg(test)` marks code for tests only.
pub open spec fn annotation_for(text: Seq<char>) -> Annotation {
    let tight = without_spaces(text);
    if tight == "cfg(test)"@ {
        Annotation::TestOnly
    } else if tight == "test"@ || has_suffix(tight, "::test"@) {
        Annotation::Test
    } else {
        Annotation::Other
    }
}

/// Reads an attribute's text.
pub fn annotation_of(text: &str) -> (a: Annotation)
    ensures
        a == annotation_for(text@),
{
    let chars = chars_of(text);
    let mut tight: Vec<char> = Vec::new();
    let mut i: usize = 0;
    while i < chars.len()
        invariant
            i <= chars.len(),
            tight@ == without_spaces(chars@.take(i as int)),
        decreases chars.len() - i,
    {
        proof {
            assert(chars@.take(i + 1).drop_last() =~= chars@.take(i as int));
        }
        if chars[i] != ' ' {
            tight.push(chars[i]);
        }
        i += 1;
    }
    proof {
        assert(chars@.take(i as int) =~= chars@);
    }
    if text_is(&tight, "cfg(test)") {
        Annotation::TestOnly
    } else if text_is(&tight, "test") || ends_with(&tight, "::test") {
        Annotation::Test
    } else {
        Annotation::Other
    }
}

/// What the attributes of an item say: one annotation for each text.
pub open spec fn annotations_for(texts: Seq<Seq<char>>) -> Seq<Annotation> {
    Seq::new(texts.len(), |i: int| annotation_for(texts[i]))
}

/// Reads the texts of attributes.
pub fn annotations_of(texts: &Vec<String>) -> (list: Vec<Annotation>)
    ensures
        list@ == annotations_for(texts.deep_view()),
{
    let mut list: Vec<Annotation> = Vec::new();
    let mut i: usize = 0;
    while i < texts.len()
        invariant
            i <= texts.len(),
            list.len() == i,
            forall|k: int| 0 <= k < i ==> list[k] == annotation_for(#[trigger] texts[k]@),
        decreases texts.len() - i,
    {
        list.push(annotation_of(texts[i].as_str()));
        i += 1;
    }
    proof {
        assert(list@ =~= annotations_for(texts.deep_view()));
    }
    list
}

/// Declarations of this kind hold further declarations.
pub open spec fn holds_declarations(kind: NodeKind) -> bool {
    kind == NodeKind::Module || kind == NodeKind::ImplementationBlock
}

/// The node that is made of what the parser says of an item: its variant,
/// name, visibility, attribute texts and lines, and the nodes of the items
/// inside it. An item that the analysis does not look at gives none; an item
/// that is no module and no implementation block holds nothing.
pub open spec fn node_for(
    tag: ItemTag,
    name: Seq<char>,
    modifier: Modifier,
    texts: Seq<Seq<char>>,
    lines: (usize, usize),
    children: Seq<NodeView>,
) -> Option<NodeView> {
    match kind_for(tag) {
        None => None,
        Some(kind) => Some(
            NodeView {
                kind,
                name,
                modifier,
                annotations: annotations_for(texts),
                first_line: lines.0,
                last_line: lines.1,
                children: if holds_declarations(kind) {
                    children
                } else {
                    Seq::empty()
                },
            },
        ),
    }
}

/// Makes the node of an item from what the parser says of it.
pub fn node_from_parts(
    tag: ItemTag,
    name: String,
    modifier: Modifier,
    texts: &Vec<String>,
    lines: (usize, usize),
    children: Vec<SyntaxNode>,
) -> (node: Option<SyntaxNode>)
    ensures
        match node_for(tag, name@, modifier, texts.deep_view(), lines, forest_view(children@)) {
            None => node is None,
            Some(view) => node matches Some(n) && node_view(n) == view,
        },
{
    match kind_of(tag) {
        None => None,
        Some(kind) => {
            let inside = match kind {
                NodeKind::Module | NodeKind::ImplementationBlock => children,
                _ => Vec::new(),
            };
            let node = SyntaxNode {
                kind,
                name,
                modifier,
                annotations: annotations_of(texts),
                first_line: lines.0,
                last_line: lines.1,
                children: inside,
            };
            proof {
                assert(node_view(node).children =~= forest_view(inside@));
                if !holds_declarations(kind) {
                    assert(forest_view(inside@) =~= Seq::<NodeView>::empty());
                }
            }
            Some(node)
        },
    }
}

/// The node, if there is one, as a sequence.
pub open spec fn kept(node: Option<NodeView>) -> Seq<NodeView> {
    match node {
        Some(n) => seq![n],
        None => Seq::empty(),
    }
}

/// The node of an item with what stands inside it, down to `depth` levels:
/// inside a module its items, inside an implementation block its associated
/// functions, inside anything else nothing.
pub open spec fn node_read(item: syn::Item, depth: nat) -> Option<NodeView>
    decreases depth, 0nat,
{
    node_for(
        tag_of(item),
        name_of(item),
        modifier_of(item),
        texts_of(item),
        token_lines_of(item),
        if depth == 0 {
            Seq::empty()
        } else {
            match kind_for(tag_of(item)) {
                Some(NodeKind::Module) => items_read(items_in(item), (depth - 1) as nat),
                Some(NodeKind::ImplementationBlock) => members_read(
                    members_in(item),
                    (depth - 1) as nat,
                ),
                _ => Seq::empty(),
            }
        },
    )
}

/// The nodes of the items that the analysis looks at, in the items' order.
pub open spec fn items_read(items: Seq<syn::Item>, depth: nat) -> Seq<NodeView>
    decreases depth, items.len() + 1,
{
    if items.len() == 0 {
        Seq::empty()
    } else {
        items_read(items.drop_last(), depth) + kept(node_read(items.last(), depth))
    }
}

/// The nodes of the associated functions among the members of an
/// implementation block, in the members' order.
pub open spec fn members_read(members: Seq<syn::ImplItem>, depth: nat) -> Seq<NodeView>
    decreases depth, members.len() + 1,
{
    if members.len() == 0 {
        Seq::empty()
    } else {
        members_read(members.drop_last(), depth) + match function_of(members.last()) {
            Some(item) => kept(node_read(item, depth)),
            None => Seq::empty(),
        }
    }
}

proof fn lemma_forest_view_push(before: Seq<SyntaxNode>, node: SyntaxNode)
    ensures
        forest_view(before.push(node)) == forest_view(before) + seq![node_view(node)],
{
    assert(forest_view(before.push(node)) =~= forest_view(before) + seq![node_view(node)]);
}

/// The node for one item with what stands inside it, down to `depth_left`
/// levels; `None` for an item that the analysis does not look at.
fn read_item(item: &syn::Item, depth_left: usize) -> (node: Option<SyntaxNode>)
    ensures
        match node_read(*item, depth_left as nat) {
            None => node is None,
            Some(view) => node matches Some(n) && node_view(n) == view,
        },
    decreases depth_left, 0nat,
{
    let tag = item_tag(item);
    let children = if depth_left == 0 {
        Vec::new()
    } else {
        match kind_of(tag) {
            Some(NodeKind::Module) => read_items(&module_items(item), depth_left - 1),
            Some(NodeKind::ImplementationBlock) => read_methods(
                &impl_members(item),
                depth_left - 1,
            ),
            _ => Vec::new(),
        }
    };
    proof {
        if children@.len() == 0 {
            assert(forest_view(children@) =~= Seq::<NodeView>::empty());
        }
    }
    let texts = item_attribute_texts(item);
    node_from_parts(tag, item_name(item), item_modifier(item), &texts, item_lines(item), children)
}

/// The nodes of the items that the analysis looks at, in the items' order,
/// each read down to `depth_left` levels.
fn read_items(items: &Vec<syn::Item>, depth_left: usize) -> (nodes: Vec<SyntaxNode>)
    ensures
        forest_view(nodes@) == items_read(items@, depth_left as nat),
    decreases depth_left, 1nat,
{
    let mut nodes: Vec<SyntaxNode> = Vec::new();
    let mut i: usize = 0;
    proof {
        assert(forest_view(nodes@) =~= items_read(items@.take(0), depth_left as nat));
    }
    while i < items.len()
        invariant
            i <= items.len(),
            forest_view(nodes@) == items_read(items@.take(i as int), depth_left as nat),
        decreases items.len() - i,
    {
        proof {
            assert(items@.take(i + 1).drop_last() =~= items@.take(i as int));
            assert(items@.take(i + 1).last() == items@[i as int]);
        }
        match read_item(&items[i], depth_left) {
            Some(node) => {
                proof {
                    lemma_forest_view_push(nodes@, node);
                }
                nodes.push(node);
            },
            None => {
                proof {
                    assert(forest_view(nodes@) + Seq::<NodeView>::empty() =~= forest_view(nodes@));
                }
            },
        }
        i += 1;
    }
    proof {
        assert(items@.take(i as int) =~= items@);
    }
    nodes
}

/// The nodes of the associated functions among the members of an
/// implementation block, in the members' order, each read down to
/// `depth_left` levels.
fn read_methods(members: &Vec<syn::ImplItem>, depth_left: usize) -> (nodes: Vec<SyntaxNode>)
    ensures
        forest_view(nodes@) == members_read(members@, depth_left as nat),
    decreases depth_left, 1nat,
{
    let mut nodes: Vec<SyntaxNode> = Vec::new();
    let mut i: usize = 0;
    proof {
        assert(forest_view(nodes@) =~= members_read(members@.take(0), depth_left as nat));
    }
    while i < members.len()
        invariant
            i <= members.len(),
            forest_view(nodes@) == members_read(members@.take(i as int), depth_left as nat),
        decreases members.len() - i,
    {
        proof {
            assert(members@.take(i + 1).drop_last() =~= members@.take(i as int));
            assert(members@.take(i + 1).last() == members@[i as int]);
            assert(forest_view(nodes@) + Seq::<NodeView>::empty() =~= forest_view(nodes@));
        }
        match method_as_item(&members[i]) {
            Some(item) => match read_item(&item, depth_left) {
                Some(node) => {
                    proof {
                        lemma_forest_view_push(nodes@, node);
                    }
                    nodes.push(node);
                },
                None => {},
            },
            None => {},
        }
        i += 1;
    }
    proof {
        assert(members@.take(i as int) =~= members@);
    }
    nodes
}

/// The most characters that a source text may have: the parser counts
/// positions in 32 bits.
pub open spec fn source_limit() -> nat {
    0xFFFF_FFFF
}

/// What reading a text gives: the parsed file, or the message of the fault.
/// A text of `source_limit()` characters or more is refused unread.
pub open spec fn source_read(text: Seq<char>) -> Result<syn::File, Seq<char>> {
    if text.len() >= source_limit() {
        Err("source text is too long"@)
    } else {
        match source_parse(text) {
            Ok(file) => Ok(file),
            Err(error) => Err(message_of(error)),
        }
    }
}

/// The syntax tree of a parsed file: the nodes of its items.
pub open spec fn file_forest(file: syn::File) -> Seq<NodeView> {
    items_read(file_items_of(file), usize::MAX as nat)
}

/// The units of a parsed file at `path`. The attributes of the file as a
/// whole count for every declaration as those of a scope around it.
pub open spec fn file_units(file: syn::File, path: Seq<char>) -> Seq<SemanticUnitView> {
    extracted_within(file_forest(file), annotations_for(file_texts_of(file)), path)
}

/// Extracts the units of a source text.
///
/// The text is handed to the parser. Where the parser refuses it, the result
/// is a parse error for `path` with the parser's message. Where it accepts
/// it, the items are read into a syntax tree, and the result is what
/// [`extract_units_within`] gives for that tree: one unit for each function,
/// type definition, interface declaration, implementation block and module,
/// ordered by first line.
pub fn extract_semantic_units_from_str(code: &str, path: &str) -> (r: Result<
    Vec<SemanticUnit>,
    ParseError,
>)
    ensures
        match source_read(code@) {
            Ok(file) => r matches Ok(units) && units.deep_view() == file_units(file, path@),
            Err(message) => r matches Err(e) && e.path@ == path@ && e.message@ == message,
        },
{
    if code.unicode_len() >= 0xFFFF_FFFF {
        return Err(ParseError::new(path.to_owned(), String::from_str("source text is too long")));
    }
    reset_spans();
    match parse_source(code) {
        Err(error) => Err(ParseError::new(path.to_owned(), error_text(&error))),
        Ok(file) => {
            let nodes = read_items(&file_items(&file), usize::MAX);
            let texts = file_attribute_texts(&file);
            let enclosing = annotations_of(&texts);
            Ok(extract_units_within(&nodes, &enclosing, path))
        },
    }
}

/// The changes that the diff of one file makes to the units of the file's
/// new version, whose text is `code`.
///
/// The units are taken from the text under the diff's new path and the diff
/// is mapped onto them. Where the parser refuses the text, the result is its
/// parse error.
pub fn analyze_file(diff: &FileDiff, code: &str) -> (r: Result<Vec<Change>, ParseError>)
    ensures
        match source_read(code@) {
            Ok(file) => r matches Ok(changes) && changes.deep_view() == mapped(
                diff@,
                file_units(file, diff.new_path@),
            ),
            Err(message) => r matches Err(e) && e.path@ == diff.new_path@ && e.message@
                == message,
        },
{
    match extract_semantic_units_from_str(code, diff.new_path.as_str()) {
        Err(error) => Err(error),
        Ok(units) => Ok(map_changes(diff, &units)),
    }
}

/// In the units of a text whose declarations are well nested and stand side
/// by side, the spans of two units never overlap in part: two declarations
/// that stand side by side on different lines share no line, and a
/// declaration stands wholly inside the one around it.
pub proof fn lemma_source_units_nested(text: Seq<char>, path: Seq<char>)
    requires
        source_read(text) is Ok,
        side_by_side(file_forest(source_read(text)->Ok_0)),
    ensures
        nested_or_apart(file_units(source_read(text)->Ok_0, path)),
{
    let file = source_read(text)->Ok_0;
    lemma_extracted_nested(file_forest(file), annotations_for(file_texts_of(file)), path);
}

} // verus!
