use dashmap::DashMap;
use java_lsp::call_chain_ranges::CallItem;
use java_lsp::definition::{definition_ranges, definition_target, definition_target_within, DefinitionError, DefinitionTarget};
use java_lsp::dto::{Access, Class, Field, JType, Method, SuperClass};
use java_lsp::position::PositionSymbol;
use java_lsp::treesitter::{Point, Range};
use java_lsp::variable::LocalVariable;

fn range(row: usize, start: usize, end: usize) -> Range {
    Range { start_byte: 0, end_byte: 0, start_point: Point { row, column: start }, end_point: Point { row, column: end } }
}

fn class_map() -> DashMap<String, Class> {
    let map = DashMap::new();
    let length = Method { access: Access::empty(), name: "length".to_string(), parameters: vec![], throws: vec![], ret: JType::Int, source: Some("/jdk/CharSequence.java".to_string()) };
    let count = Field { access: Access::empty(), name: "count".to_string(), jtype: JType::Int, source: None };
    map.insert(
        "java.lang.String".to_string(),
        Class {
            class_path: "java.lang.String".to_string(),
            source: "/jdk/String.java".to_string(),
            access: Access::empty(),
            imports: vec![],
            name: "String".to_string(),
            methods: vec![length],
            fields: vec![count],
            super_class: SuperClass::Empty,
            super_interfaces: vec![],
        },
    );
    map
}

fn this() -> Class {
    Class {
        class_path: "a.Test".to_string(),
        source: "/src/a/Test.java".to_string(),
        access: Access::empty(),
        imports: vec![],
        name: "Test".to_string(),
        methods: vec![],
        fields: vec![],
        super_class: SuperClass::Empty,
        super_interfaces: vec![],
    }
}

fn local() -> LocalVariable {
    LocalVariable { level: 2, jtype: JType::Class("String".to_string()), name: "local".to_string(), is_fun: false, range: range(3, 15, 20) }
}

#[test]
fn definition_of_a_class_a_method_and_a_field() {
    let map = class_map();
    let chain = vec![
        CallItem::Class { name: "String".to_string(), range: range(0, 0, 6) },
        CallItem::FieldAccess { name: "count".to_string(), range: range(0, 7, 12) },
    ];
    let out = definition_target(&chain, &Point { row: 0, column: 2 }, &[], &[], &this(), &map).unwrap();
    assert_eq!(out, DefinitionTarget::Class { source: "/jdk/String.java".to_string(), name: "String".to_string() });
    let out = definition_target(&chain, &Point { row: 0, column: 9 }, &[], &[], &this(), &map);
    // the field access resolves the chain through it, to `int`, which has no source
    assert_eq!(out.unwrap(), DefinitionTarget::Field { source: String::new(), name: "count".to_string() });
    let chain = vec![CallItem::ArgumentList {
        prev: vec![],
        active_param: 0,
        filled_params: vec![vec![CallItem::Class { name: "String".to_string(), range: range(0, 10, 16) }]],
        range: range(0, 9, 17),
    }];
    let out = definition_target(&chain, &Point { row: 0, column: 12 }, &[], &[], &this(), &map).unwrap();
    assert_eq!(out, DefinitionTarget::Class { source: "/jdk/String.java".to_string(), name: "String".to_string() });
}

#[test]
fn definition_of_locals() {
    let map = class_map();
    let chain = vec![CallItem::Variable { name: "local".to_string(), range: range(4, 8, 13) }];
    let out = definition_target(&chain, &Point { row: 4, column: 9 }, &[local()], &[], &this(), &map).unwrap();
    assert_eq!(out, DefinitionTarget::Local { range: range(3, 15, 20) });
    let chain = vec![CallItem::ClassOrVariable { name: "local".to_string(), range: range(4, 8, 13) }];
    let out = definition_target(&chain, &Point { row: 4, column: 9 }, &[local()], &[], &this(), &map).unwrap();
    assert_eq!(out, DefinitionTarget::Locals { vars: vec![(range(3, 15, 20), "local".to_string())] });
    assert!(matches!(
        definition_target(&vec![], &Point { row: 0, column: 0 }, &[], &[], &this(), &map),
        Err(DefinitionError::ValidatedItemDoesNotExists)
    ));
}

#[test]
fn ranges_in_the_target_source() {
    let source = b"package a;\npublic class Test {\n    int length() { return 0; }\n}\n";
    let target = DefinitionTarget::Method { source: "/src/a/Test.java".to_string(), name: "length".to_string() };
    let out = definition_ranges(&target, source).unwrap();
    assert_eq!(out.len(), 1);
    assert_eq!(out[0].get_range().start_point, Point { row: 2, column: 8 });
    let target = DefinitionTarget::Class { source: String::new(), name: "Test".to_string() };
    assert!(matches!(definition_ranges(&target, source).unwrap()[0], PositionSymbol::Range(_)));
    assert_eq!(definition_ranges(&DefinitionTarget::Local { range: range(0, 0, 1) }, source).unwrap().len(), 0);
}

#[test]
fn definition_only_where_parents_end() {
    let map = class_map();
    let chain = vec![CallItem::Class { name: "String".to_string(), range: range(0, 0, 6) }];
    let out = definition_target_within(&chain, &Point { row: 0, column: 2 }, &[], &[], &this(), &map, 5).unwrap().unwrap();
    assert_eq!(out, DefinitionTarget::Class { source: "/jdk/String.java".to_string(), name: "String".to_string() });
    let cyclic: DashMap<String, Class> = DashMap::new();
    let mut a = this();
    a.class_path = "p.A".to_string();
    a.super_class = SuperClass::ClassPath("p.A".to_string());
    cyclic.insert("p.A".to_string(), a);
    assert!(definition_target_within(&chain, &Point { row: 0, column: 2 }, &[], &[], &this(), &cyclic, 50).is_none());
}
