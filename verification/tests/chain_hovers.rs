use dashmap::DashMap;
use java_lsp::call_chain_ranges::CallItem;
use java_lsp::dto::{Access, Class, JType, Method, SuperClass};
use java_lsp::hover::{call_chain_hover, call_chain_hover_within, HoverError};
use java_lsp::treesitter::{Point, Range};
use java_lsp::tyres::resolve_call_chain_to_point;
use java_lsp::variable::LocalVariable;

fn range(row: usize, start: usize, end: usize) -> Range {
    Range { start_byte: 0, end_byte: 0, start_point: Point { row, column: start }, end_point: Point { row, column: end } }
}

fn class(path: &str, methods: Vec<Method>) -> Class {
    Class {
        class_path: path.to_string(),
        source: String::new(),
        access: Access::empty(),
        imports: vec![],
        name: path.rsplit('.').next().unwrap().to_string(),
        methods,
        fields: vec![],
        super_class: SuperClass::Empty,
        super_interfaces: vec![],
    }
}

fn class_map() -> DashMap<String, Class> {
    let map = DashMap::new();
    let length = Method { access: Access::empty(), name: "length".to_string(), parameters: vec![], throws: vec![], ret: JType::Int, source: None };
    map.insert("java.lang.String".to_string(), class("java.lang.String", vec![length]));
    map
}

const SOURCE: &str = "package a;\npublic class Test {\n    void hello() {\n        String local = \"\";\n        local.length();\n    }\n}\n";

fn local() -> LocalVariable {
    LocalVariable { level: 2, jtype: JType::Class("String".to_string()), name: "local".to_string(), is_fun: false, range: range(3, 15, 20) }
}

#[test]
fn hover_of_a_local_name() {
    let map = class_map();
    let chain = vec![
        CallItem::ClassOrVariable { name: "local".to_string(), range: range(4, 8, 13) },
        CallItem::MethodCall { name: "length".to_string(), range: range(4, 14, 20) },
    ];
    let this = class("a.Test", vec![]);
    let out = call_chain_hover(SOURCE.as_bytes(), &chain, &Point { row: 4, column: 10 }, &[local()], &[], &this, &map).unwrap();
    assert_eq!(out.value, "String local\n\n\n\n");
    assert_eq!(out.range, range(4, 8, 13));
}

#[test]
fn hover_of_a_class_and_a_variable() {
    let map = class_map();
    let this = class("a.Test", vec![]);
    let chain = vec![CallItem::Class { name: "String".to_string(), range: range(0, 0, 6) }];
    let out = call_chain_hover(b"", &chain, &Point { row: 0, column: 2 }, &[], &[], &this, &map).unwrap();
    assert_eq!(out.value, "# String\n```java\nint length()\n```");
    let chain = vec![CallItem::Variable { name: "local".to_string(), range: range(0, 0, 5) }];
    let out = call_chain_hover(b"", &chain, &Point { row: 0, column: 2 }, &[local()], &[], &this, &map).unwrap();
    assert_eq!(out.value, "String local");
}

#[test]
fn hover_in_an_argument() {
    let map = class_map();
    let this = class("a.Test", vec![]);
    let chain = vec![CallItem::ArgumentList {
        prev: vec![CallItem::Variable { name: "local".to_string(), range: range(0, 0, 5) }],
        active_param: 0,
        filled_params: vec![vec![CallItem::Class { name: "String".to_string(), range: range(0, 10, 16) }]],
        range: range(0, 9, 17),
    }];
    let out = call_chain_hover(b"", &chain, &Point { row: 0, column: 12 }, &[local()], &[], &this, &map).unwrap();
    assert_eq!(out.value, "# String\n```java\nint length()\n```");
    let outside = vec![CallItem::ArgumentList { prev: vec![], active_param: 1, filled_params: vec![vec![]], range: range(0, 9, 17) }];
    assert!(matches!(
        call_chain_hover(b"", &outside, &Point { row: 0, column: 12 }, &[], &[], &this, &map),
        Err(HoverError::Tyres(_))
    ));
}

#[test]
fn hover_errors() {
    let map = class_map();
    let this = class("a.Test", vec![]);
    assert!(matches!(
        call_chain_hover(b"", &vec![], &Point { row: 0, column: 0 }, &[], &[], &this, &map),
        Err(HoverError::ValidatedItemDoesNotExists)
    ));
    let chain = vec![CallItem::Variable { name: "nope".to_string(), range: range(0, 0, 4) }];
    assert!(matches!(
        call_chain_hover(b"", &chain, &Point { row: 0, column: 1 }, &[], &[], &this, &map),
        Err(HoverError::Tyres(_))
    ));
}

#[test]
fn resolving_stops_after_the_point() {
    let map = class_map();
    let this = class("a.Test", vec![]);
    let chain = vec![
        CallItem::Class { name: "String".to_string(), range: range(0, 0, 6) },
        CallItem::MethodCall { name: "length".to_string(), range: range(0, 7, 13) },
    ];
    let before = resolve_call_chain_to_point(&chain, &[], &[], &this, &map, &Point { row: 0, column: 3 }).unwrap();
    assert_eq!(before.jtype, JType::Class("java.lang.String".to_string()));
    let after = resolve_call_chain_to_point(&chain, &[], &[], &this, &map, &Point { row: 0, column: 10 }).unwrap();
    assert_eq!(after.jtype, JType::Int);
}

#[test]
fn hover_only_where_parents_end() {
    let map = class_map();
    let this = class("a.Test", vec![]);
    let chain = vec![CallItem::Class { name: "String".to_string(), range: range(0, 0, 6) }];
    let out = call_chain_hover_within(b"", &chain, &Point { row: 0, column: 2 }, &[], &[], &this, &map, 5).unwrap().unwrap();
    assert_eq!(out.value, "# String\n```java\nint length()\n```");
    let cyclic: DashMap<String, Class> = DashMap::new();
    let mut a = class("p.A", vec![]);
    a.super_class = SuperClass::ClassPath("p.B".to_string());
    let mut b = class("p.B", vec![]);
    b.super_class = SuperClass::ClassPath("p.A".to_string());
    cyclic.insert("p.A".to_string(), a);
    cyclic.insert("p.B".to_string(), b);
    assert!(call_chain_hover_within(b"", &chain, &Point { row: 0, column: 2 }, &[], &[], &this, &cyclic, 50).is_none());
}
