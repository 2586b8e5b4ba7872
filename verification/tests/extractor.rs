use rust_diff_analyzer::analysis::extractor::{
    annotation_of, extract_semantic_units_from_str, node_from_parts, ItemTag,
};
use rust_diff_analyzer::analysis::{extract_units, Modifier, NodeKind, SyntaxNode};
use rust_diff_analyzer::classifier::Annotation;
use rust_diff_analyzer::types::{CodeType, LineSpan, SemanticUnitKind, Visibility};

fn summary(code: &str, path: &str) -> Vec<(Option<SemanticUnitKind>, String, Visibility, usize, usize, CodeType)> {
    extract_semantic_units_from_str(code, path)
        .unwrap()
        .into_iter()
        .map(|u| (u.kind, u.name, u.visibility, u.span.start, u.span.end, u.code_type))
        .collect()
}

#[test]
fn one_unit_per_declaration_with_exact_spans() {
    let code = "pub struct Config {\n    pub name: String,\n}\n\npub(crate) enum Status {\n    Active,\n}\n\npub trait Processor {\n    fn process(&self);\n}\n\nimpl Config {\n    pub fn new() -> Self {\n        Self {}\n    }\n    fn private(&self) {}\n}\n\nfn process_data() {}\n\n#[cfg(test)]\nmod tests {\n    use super::*;\n\n    fn helper() {}\n\n    #[test]\n    fn test_config() {\n        helper();\n    }\n}\n";
    let units = summary(code, "src/lib.rs");
    assert_eq!(
        units,
        vec![
            (Some(SemanticUnitKind::TypeDefinition), "Config".to_string(), Visibility::Public, 1, 3, CodeType::Production),
            (Some(SemanticUnitKind::TypeDefinition), "Status".to_string(), Visibility::ModuleScoped, 5, 7, CodeType::Production),
            (Some(SemanticUnitKind::InterfaceDeclaration), "Processor".to_string(), Visibility::Public, 9, 11, CodeType::Production),
            (Some(SemanticUnitKind::ImplementationBlock), "".to_string(), Visibility::Private, 13, 18, CodeType::Production),
            (Some(SemanticUnitKind::Function), "new".to_string(), Visibility::Public, 14, 16, CodeType::Production),
            (Some(SemanticUnitKind::Function), "private".to_string(), Visibility::Private, 17, 17, CodeType::Production),
            (Some(SemanticUnitKind::Function), "process_data".to_string(), Visibility::Private, 20, 20, CodeType::Production),
            (Some(SemanticUnitKind::Module), "tests".to_string(), Visibility::Private, 22, 32, CodeType::Test),
            (Some(SemanticUnitKind::Function), "helper".to_string(), Visibility::Private, 26, 26, CodeType::Test),
            (Some(SemanticUnitKind::Function), "test_config".to_string(), Visibility::Private, 28, 31, CodeType::Test),
        ]
    );
}

#[test]
fn unicode_and_long_identifiers_give_one_unit_each() {
    let units = summary("\n        pub fn функция() {}\n        pub struct Структура {}\n    ", "test.rs");
    assert_eq!(units.len(), 2);
    assert_eq!(units[0].1, "функция");
    assert_eq!((units[0].3, units[0].4), (2, 2));
    assert_eq!(units[1].1, "Структура");
    assert_eq!((units[1].3, units[1].4), (3, 3));
    let name = "a".repeat(1000);
    let units = summary(&format!("pub fn {}() {{}}", name), "test.rs");
    assert_eq!(units.len(), 1);
    assert_eq!(units[0].1, name);
    assert_eq!((units[0].3, units[0].4), (1, 1));
}

#[test]
fn parse_error_names_the_path() {
    let error = extract_semantic_units_from_str("pub fn incomplete(", "src/broken.rs").unwrap_err();
    assert_eq!(error.path, "src/broken.rs");
    assert!(!error.message.is_empty());
}

#[test]
fn path_decides_the_purpose_not_the_spans() {
    let code = "fn main() {}\n\n#[test]\nfn t() {}\n\nmod tests {\n    fn helper() {}\n}\n";
    let at = |path: &str| -> Vec<(Option<SemanticUnitKind>, CodeType, usize, usize)> {
        summary(code, path).into_iter().map(|u| (u.0, u.5, u.3, u.4)).collect()
    };
    assert_eq!(
        at("src/main.rs"),
        vec![
            (Some(SemanticUnitKind::Function), CodeType::Production, 1, 1),
            (Some(SemanticUnitKind::Function), CodeType::Test, 3, 4),
            (Some(SemanticUnitKind::Module), CodeType::Production, 6, 8),
            (Some(SemanticUnitKind::Function), CodeType::TestUtility, 7, 7),
        ]
    );
    assert_eq!(
        at("build.rs"),
        vec![
            (Some(SemanticUnitKind::BuildScriptEntry), CodeType::BuildScript, 1, 1),
            (Some(SemanticUnitKind::Function), CodeType::BuildScript, 3, 4),
            (Some(SemanticUnitKind::Module), CodeType::BuildScript, 6, 8),
            (Some(SemanticUnitKind::Function), CodeType::BuildScript, 7, 7),
        ]
    );
    assert_eq!(at("benches/b.rs")[0], (Some(SemanticUnitKind::Function), CodeType::Benchmark, 1, 1));
    assert_eq!(at("examples/e.rs")[1], (Some(SemanticUnitKind::Function), CodeType::Example, 3, 4));
    assert_eq!(at("tests/it.rs")[0], (Some(SemanticUnitKind::Function), CodeType::TestUtility, 1, 1));
    assert_eq!(at("tests/it.rs")[1], (Some(SemanticUnitKind::Function), CodeType::Test, 3, 4));
}

#[test]
fn attribute_texts() {
    assert_eq!(annotation_of("test"), Annotation::Test);
    assert_eq!(annotation_of("tokio :: test"), Annotation::Test);
    assert_eq!(annotation_of("cfg (test)"), Annotation::TestOnly);
    assert_eq!(annotation_of("cfg(test)"), Annotation::TestOnly);
    assert_eq!(annotation_of("derive (Debug)"), Annotation::Other);
    assert_eq!(annotation_of("attest"), Annotation::Other);
    assert_eq!(annotation_of(""), Annotation::Other);
}

fn node(kind: NodeKind, name: &str, first_line: usize, last_line: usize, children: Vec<SyntaxNode>) -> SyntaxNode {
    SyntaxNode {
        kind,
        name: name.to_string(),
        modifier: Modifier::Inherited,
        annotations: vec![],
        first_line,
        last_line,
        children,
    }
}

#[test]
fn units_of_a_tree_come_ordered_by_first_line() {
    let tree = vec![
        node(NodeKind::Function, "late", 30, 31, vec![]),
        node(
            NodeKind::Module,
            "m",
            1,
            20,
            vec![node(NodeKind::Function, "second", 10, 12, vec![]), node(NodeKind::Function, "first", 2, 3, vec![])],
        ),
        node(NodeKind::TypeDefinition, "tie", 10, 10, vec![]),
    ];
    let units = extract_units(&tree, "src/lib.rs");
    let seen: Vec<(&str, LineSpan)> = units.iter().map(|u| (u.name.as_str(), u.span)).collect();
    assert_eq!(
        seen,
        vec![
            ("m", LineSpan { start: 1, end: 20 }),
            ("first", LineSpan { start: 2, end: 3 }),
            ("second", LineSpan { start: 10, end: 12 }),
            ("tie", LineSpan { start: 10, end: 10 }),
            ("late", LineSpan { start: 30, end: 31 }),
        ]
    );
}

#[test]
fn annotations_around_a_unit_count() {
    let mut inner = node(NodeKind::Function, "helper", 3, 3, vec![]);
    inner.modifier = Modifier::Restricted;
    let mut outer = node(NodeKind::Module, "support", 1, 5, vec![inner]);
    outer.annotations = vec![Annotation::Other, Annotation::TestOnly];
    outer.modifier = Modifier::Public;
    let units = extract_units(&vec![outer], "src/lib.rs");
    assert_eq!(units[0].code_type, CodeType::Test);
    assert_eq!(units[0].visibility, Visibility::Public);
    assert_eq!(units[1].code_type, CodeType::Test);
    assert_eq!(units[1].visibility, Visibility::ModuleScoped);
    assert_eq!(units[1].kind, Some(SemanticUnitKind::Function));
}

#[test]
fn spans_of_two_units_never_overlap_in_part() {
    let code = "mod a {\n    pub struct S;\n\n    impl S {\n        fn f(&self) {}\n\n        fn g(&self) {\n        }\n    }\n\n    mod b {\n        fn h() {}\n    }\n}\n\nfn last() {\n}\n";
    let units = extract_semantic_units_from_str(code, "src/lib.rs").unwrap();
    let spans: Vec<(usize, usize)> = units.iter().map(|u| (u.span.start, u.span.end)).collect();
    assert_eq!(spans, vec![(1, 14), (2, 2), (4, 9), (5, 5), (7, 8), (11, 13), (12, 12), (16, 17)]);
    for i in 0..units.len() {
        for j in i + 1..units.len() {
            let (a, b) = (units[i].span, units[j].span);
            assert!(a.start <= b.start);
            assert!(a.end < b.start || a.contains_span(&b));
            assert_eq!(a.overlaps(&b), a.contains_span(&b));
        }
    }
}

#[test]
fn nodes_are_made_of_what_the_parser_says() {
    let texts = vec!["cfg (test)".to_string(), "derive (Debug)".to_string(), "tokio :: test".to_string()];
    let child = node(NodeKind::Function, "inner", 4, 5, vec![]);
    let made = node_from_parts(
        ItemTag::Mod,
        "outer".to_string(),
        Modifier::Restricted,
        &texts,
        (3, 9),
        vec![child],
    )
    .unwrap();
    assert_eq!(made.kind, NodeKind::Module);
    assert_eq!(made.name, "outer");
    assert_eq!(made.modifier, Modifier::Restricted);
    assert_eq!(made.annotations, vec![Annotation::TestOnly, Annotation::Other, Annotation::Test]);
    assert_eq!((made.first_line, made.last_line), (3, 9));
    assert_eq!(made.children.len(), 1);
    assert_eq!(made.children[0].name, "inner");
    let leaf = node_from_parts(
        ItemTag::Enum,
        "E".to_string(),
        Modifier::Public,
        &vec![],
        (1, 2),
        vec![node(NodeKind::Function, "lost", 1, 1, vec![])],
    )
    .unwrap();
    assert_eq!(leaf.kind, NodeKind::TypeDefinition);
    assert!(leaf.children.is_empty());
    assert!(leaf.annotations.is_empty());
    let kinds = |tag| {
        node_from_parts(tag, String::new(), Modifier::Inherited, &vec![], (1, 1), vec![])
            .map(|n| n.kind)
    };
    assert_eq!(kinds(ItemTag::Fn), Some(NodeKind::Function));
    assert_eq!(kinds(ItemTag::Struct), Some(NodeKind::TypeDefinition));
    assert_eq!(kinds(ItemTag::Union), Some(NodeKind::TypeDefinition));
    assert_eq!(kinds(ItemTag::Type), Some(NodeKind::TypeDefinition));
    assert_eq!(kinds(ItemTag::Trait), Some(NodeKind::InterfaceDeclaration));
    assert_eq!(kinds(ItemTag::Impl), Some(NodeKind::ImplementationBlock));
    assert_eq!(kinds(ItemTag::Other), None);
}

#[test]
fn attributes_of_the_whole_file_count_for_every_unit() {
    let plain = summary("fn helper() {}\n\nmod m {\n    fn inner() {}\n}\n", "src/support.rs");
    assert_eq!(plain.iter().map(|u| u.5).collect::<Vec<_>>(), vec![CodeType::Production; 3]);
    let marked = summary("#![cfg(test)]\n\nfn helper() {}\n\nmod m {\n    fn inner() {}\n}\n", "src/support.rs");
    assert_eq!(marked.iter().map(|u| u.5).collect::<Vec<_>>(), vec![CodeType::Test; 3]);
    assert_eq!(marked.iter().map(|u| (u.3, u.4)).collect::<Vec<_>>(), vec![(3, 3), (5, 7), (6, 6)]);
    let other = summary("#![allow(dead_code)]\nfn helper() {}\n", "src/support.rs");
    assert_eq!(other[0].5, CodeType::Production);
}

#[test]
fn one_text_gives_the_same_units_every_time() {
    let code = "mod a {\n    fn f() {}\n}\n\nfn g() {\n}\n";
    let first = extract_semantic_units_from_str(code, "src/lib.rs").unwrap();
    let between = extract_semantic_units_from_str("fn other() {}\n\n\nfn more() {}\n", "src/x.rs").unwrap();
    let second = extract_semantic_units_from_str(code, "src/lib.rs").unwrap();
    assert_eq!(first, second);
    assert_eq!(between.iter().map(|u| u.span.start).collect::<Vec<_>>(), vec![1, 4]);
    assert_eq!(first.iter().map(|u| (u.span.start, u.span.end)).collect::<Vec<_>>(), vec![(1, 3), (2, 2), (5, 6)]);
    let a = extract_semantic_units_from_str("fn broken( {", "a.rs").unwrap_err();
    let b = extract_semantic_units_from_str("fn broken( {", "a.rs").unwrap_err();
    assert_eq!(a.message, b.message);
}
