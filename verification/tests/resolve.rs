use dashmap::DashMap;
use java_lsp::call_chain_ranges::CallItem;
use java_lsp::dto::{Access, Class, Field, ImportUnit, JType, Method, SuperClass};
use java_lsp::treesitter::{Point, Range};
use java_lsp::tyres::{
    is_imported, is_imported_class_name, parents_end_within, resolve, resolve_call_chain, resolve_call_chain_value,
    resolve_class_key, resolve_import, resolve_jtype, resolve_params, resolve_var, ImportResult, TyresError,
};
use java_lsp::variable::LocalVariable;

fn range() -> Range {
    Range { start_byte: 0, end_byte: 0, start_point: Point { row: 0, column: 0 }, end_point: Point { row: 0, column: 0 } }
}

fn method(name: &str, ret: JType) -> Method {
    Method { access: Access::from_bits(Access::Public), name: name.to_string(), parameters: vec![], throws: vec![], ret, source: None }
}

fn field(name: &str, jtype: JType) -> Field {
    Field { access: Access::empty(), name: name.to_string(), jtype, source: None }
}

fn class(path: &str, super_class: SuperClass, methods: Vec<Method>, fields: Vec<Field>) -> Class {
    Class {
        class_path: path.to_string(),
        source: format!("{path}.java"),
        access: Access::empty(),
        imports: vec![],
        name: path.rsplit('.').next().unwrap().to_string(),
        methods,
        fields,
        super_class,
        super_interfaces: vec![],
    }
}

fn class_map() -> DashMap<String, Class> {
    let map = DashMap::new();
    map.insert(
        "java.lang.String".to_string(),
        class("java.lang.String", SuperClass::Empty, vec![method("length", JType::Int)], vec![]),
    );
    map.insert(
        "p.Foo".to_string(),
        class(
            "p.Foo",
            SuperClass::Empty,
            vec![method("make", JType::Class("Bar".to_string()))],
            vec![field("bar", JType::Class("p.Bar".to_string()))],
        ),
    );
    map.insert(
        "p.Bar".to_string(),
        class("p.Bar", SuperClass::ClassPath("p.Base".to_string()), vec![method("run", JType::Void)], vec![]),
    );
    map.insert("p.Base".to_string(), class("p.Base", SuperClass::Empty, vec![method("base", JType::Int)], vec![]));
    map
}

fn var(name: &str, jtype: JType) -> LocalVariable {
    LocalVariable { level: 0, jtype, name: name.to_string(), is_fun: false, range: range() }
}

#[test]
fn primitive_resolves_to_named_class() {
    let map = class_map();
    let out = resolve_jtype(&JType::Int, &[], &map).unwrap();
    assert_eq!(out.jtype, JType::Int);
    assert_eq!(out.class.name, "int");
    assert!(out.class.methods.is_empty());
    assert_eq!(resolve_jtype(&JType::Wildcard, &[], &map).unwrap().class.name, "Wildcard");
    assert_eq!(resolve_jtype(&JType::Void, &[], &map).unwrap().class.name, "void");
}

#[test]
fn array_has_clone_and_length() {
    let map = class_map();
    let array = JType::Array(Box::new(JType::Int));
    let out = resolve_jtype(&array, &[], &map).unwrap();
    assert_eq!(out.class.name, "array");
    assert_eq!(out.class.methods.len(), 1);
    assert_eq!(out.class.methods[0].name, "clone");
    assert_eq!(out.class.methods[0].ret, array);
    assert_eq!(out.class.fields.len(), 1);
    assert_eq!(out.class.fields[0].name, "length");
    assert_eq!(out.class.fields[0].jtype, JType::Int);
}

#[test]
fn type_parameter_and_var() {
    let map = class_map();
    let out = resolve_jtype(&JType::Parameter("T".to_string()), &[], &map).unwrap();
    assert_eq!(out.class.name, "<T>");
    assert_eq!(resolve_jtype(&JType::Var, &[], &map), Err(TyresError::CheckValue));
}

#[test]
fn resolve_java_lang_first() {
    let map = class_map();
    let out = resolve("String", &[], &map).unwrap();
    assert_eq!(out.jtype, JType::Class("java.lang.String".to_string()));
    assert_eq!(out.class.methods[0].name, "length");
}

#[test]
fn resolve_through_imports() {
    let map = class_map();
    let by_class = resolve("Foo", &[ImportUnit::Class("p.Foo".to_string())], &map).unwrap();
    assert_eq!(by_class.jtype, JType::Class("p.Foo".to_string()));
    let by_package = resolve("Bar", &[ImportUnit::Package("p".to_string())], &map).unwrap();
    assert_eq!(by_package.jtype, JType::Class("p.Bar".to_string()));
    let names: Vec<&str> = by_package.class.methods.iter().map(|m| m.name.as_str()).collect();
    assert_eq!(names, vec!["base", "run"]);
    assert_eq!(by_package.class.methods[0].source, None);
    assert_eq!(by_package.class.methods[1].source, Some("p.Bar.java".to_string()));
}

#[test]
fn resolve_errors() {
    let map = class_map();
    assert_eq!(resolve("Nope", &[], &map), Err(TyresError::NotImported("Nope".to_string())));
    assert_eq!(
        resolve("Missing", &[ImportUnit::Class("q.Missing".to_string())], &map),
        Err(TyresError::ClassNotFound { class_path: "q.Missing".to_string() })
    );
    assert_eq!(resolve("p.Nope", &[], &map), Err(TyresError::ClassNotFound { class_path: "p.Nope".to_string() }));
    assert_eq!(resolve("p.Foo", &[], &map).unwrap().jtype, JType::Class("p.Foo".to_string()));
}

#[test]
fn imports_make_classes_of_names() {
    let map = class_map();
    assert_eq!(
        is_imported("Foo", &[ImportUnit::StaticPrefix("p".to_string())], &map),
        Some(ImportResult::StaticClass("p.Foo".to_string()))
    );
    assert_eq!(
        is_imported("java.lang.Object", &[], &map),
        Some(ImportResult::Class("java.lang.Object".to_string()))
    );
    assert_eq!(is_imported("Foo", &[ImportUnit::Package("q".to_string())], &map), None);
    assert_eq!(
        is_imported("Foo", &[ImportUnit::StaticClassMethod("p.Foo".to_string(), "x".to_string()), ImportUnit::Prefix("p".to_string())], &map),
        Some(ImportResult::Class("p.Foo".to_string()))
    );
    assert!(is_imported_class_name("Foo", &[ImportUnit::StaticClass("p.Foo".to_string())], &map));
    assert!(!is_imported_class_name("Foo", &[], &map));
}

#[test]
fn call_chain_follows_methods_and_fields() {
    let map = class_map();
    let imports = vec![ImportUnit::Class("p.Foo".to_string()), ImportUnit::Package("p".to_string())];
    let vars = vec![var("foo", JType::Class("Foo".to_string()))];
    let this = class("p.Main", SuperClass::Empty, vec![], vec![]);
    let chain = vec![
        CallItem::Variable { name: "foo".to_string(), range: range() },
        CallItem::MethodCall { name: "make".to_string(), range: range() },
        CallItem::MethodCall { name: "base".to_string(), range: range() },
    ];
    let out = resolve_call_chain(&chain, &vars, &imports, &this, &map).unwrap();
    assert_eq!(out.jtype, JType::Int);
    assert_eq!(out.class.name, "int");
    let chain = vec![
        CallItem::ClassOrVariable { name: "foo".to_string(), range: range() },
        CallItem::FieldAccess { name: "bar".to_string(), range: range() },
    ];
    let out = resolve_call_chain(&chain, &vars, &imports, &this, &map).unwrap();
    assert_eq!(out.jtype, JType::Class("p.Bar".to_string()));
    let out = resolve_var(&vars[0], &imports, &map).unwrap();
    assert_eq!(out.jtype, JType::Class("p.Foo".to_string()));
}

#[test]
fn call_chain_skips_links_that_do_not_resolve() {
    let map = class_map();
    let this = class("p.Main", SuperClass::Empty, vec![], vec![]);
    let chain = vec![
        CallItem::Class { name: "String".to_string(), range: range() },
        CallItem::MethodCall { name: "nothing".to_string(), range: range() },
    ];
    let out = resolve_call_chain(&chain, &[], &[], &this, &map).unwrap();
    assert_eq!(out.jtype, JType::Class("java.lang.String".to_string()));
}

#[test]
fn call_chain_errors() {
    let map = class_map();
    let this = class("p.Main", SuperClass::Empty, vec![], vec![]);
    assert_eq!(resolve_call_chain(&[], &[], &[], &this, &map), Err(TyresError::CallChainEmtpy));
    let chain = vec![CallItem::MethodCall { name: "x".to_string(), range: range() }];
    assert_eq!(resolve_call_chain(&chain, &[], &[], &this, &map), Err(TyresError::CallChainInvalid(chain.clone())));
}

#[test]
fn argument_list_resolves_active_argument() {
    let map = class_map();
    let imports = vec![ImportUnit::Class("p.Foo".to_string())];
    let vars = vec![var("foo", JType::Class("Foo".to_string()))];
    let this = class("p.Main", SuperClass::Empty, vec![], vec![]);
    let chain = vec![CallItem::ArgumentList {
        prev: vec![CallItem::Variable { name: "foo".to_string(), range: range() }],
        active_param: 0,
        filled_params: vec![vec![CallItem::ClassOrVariable { name: "String".to_string(), range: range() }]],
        range: range(),
    }];
    let out = resolve_call_chain(&chain, &vars, &imports, &this, &map).unwrap();
    assert_eq!(out.jtype, JType::Class("java.lang.String".to_string()));
    let value = resolve_call_chain_value(&chain, &vars, &imports, &this, &map).unwrap();
    assert_eq!(value.jtype, JType::Class("p.Foo".to_string()));
    let empty_argument = vec![CallItem::ArgumentList {
        prev: vec![CallItem::Variable { name: "foo".to_string(), range: range() }],
        active_param: 1,
        filled_params: vec![vec![], vec![]],
        range: range(),
    }];
    let out = resolve_call_chain(&empty_argument, &vars, &imports, &this, &map).unwrap();
    assert_eq!(out.jtype, JType::Class("p.Foo".to_string()));
}

#[test]
fn params_resolve_each() {
    let map = class_map();
    let this = class("p.Main", SuperClass::Empty, vec![], vec![]);
    let params = vec![vec![CallItem::Class { name: "String".to_string(), range: range() }], vec![]];
    let out = resolve_params(params, &[], &[], &this, &map);
    assert_eq!(out.len(), 2);
    assert_eq!(out[0].as_ref().unwrap().jtype, JType::Class("java.lang.String".to_string()));
    assert_eq!(out[1], Err(TyresError::CallChainEmtpy));
}

#[test]
fn class_keys_by_prefix() {
    let map = class_map();
    let mut out = resolve_import("p.", &map);
    out.sort();
    assert_eq!(out, vec!["p.Bar".to_string(), "p.Base".to_string(), "p.Foo".to_string()]);
    let mut all = resolve_class_key(&map, |k| k.ends_with("String"));
    all.sort();
    assert_eq!(all, vec!["java.lang.String".to_string()]);
}

#[test]
fn parents_end_in_acyclic_map_only() {
    let map = class_map();
    assert!(parents_end_within(&map, 5));
    assert!(!parents_end_within(&map, 0));
    let cyclic: DashMap<String, Class> = DashMap::new();
    cyclic.insert("p.A".to_string(), class("p.A", SuperClass::ClassPath("p.B".to_string()), vec![], vec![]));
    cyclic.insert("p.B".to_string(), class("p.B", SuperClass::ClassPath("p.A".to_string()), vec![], vec![]));
    assert!(!parents_end_within(&cyclic, 50));
}
