use dashmap::DashMap;
use java_lsp::dto::{Access, Class, ImportUnit, SuperClass};
use java_lsp::references::{get_implicit_imports, init_refernece_map, insert_or_extend, reference_update_class, ReferenceUnit};

fn class(path: &str, name: &str, imports: Vec<ImportUnit>) -> Class {
    Class {
        class_path: path.to_string(),
        source: String::new(),
        access: Access::empty(),
        imports,
        name: name.to_string(),
        methods: vec![],
        fields: vec![],
        super_class: SuperClass::Empty,
        super_interfaces: vec![],
    }
}

fn class_map() -> DashMap<String, Class> {
    let map = DashMap::new();
    map.insert("p.Foo".to_string(), class("p.Foo", "Foo", vec![ImportUnit::Class("x.Bar".to_string())]));
    map.insert("p.Baz".to_string(), class("p.Baz", "Baz", vec![ImportUnit::Class("x.Other".to_string())]));
    map.insert("r.Qux".to_string(), class("r.Qux", "Qux", vec![ImportUnit::Class("y.Bar".to_string())]));
    map
}

fn uses(map: &DashMap<String, Vec<ReferenceUnit>>, key: &str) -> Option<Vec<ReferenceUnit>> {
    map.get(key).map(|v| v.value().clone())
}

#[test]
fn implicit_imports_of_a_package() {
    let user = class("a.Bar", "Bar", vec![]);
    let out = get_implicit_imports(&class_map(), &user, &"p".to_string());
    assert_eq!(out, vec!["p.Foo".to_string()]);
    assert!(get_implicit_imports(&class_map(), &user, &"q".to_string()).is_empty());
}

#[test]
fn insert_or_extend_appends_or_inserts() {
    let mut map: DashMap<String, Vec<ReferenceUnit>> = DashMap::new();
    insert_or_extend(&mut map, &"k".to_string(), vec![ReferenceUnit::Class("a".to_string())]);
    insert_or_extend(&mut map, &"k".to_string(), vec![ReferenceUnit::StaticClass("b".to_string())]);
    assert_eq!(
        uses(&map, "k"),
        Some(vec![ReferenceUnit::Class("a".to_string()), ReferenceUnit::StaticClass("b".to_string())])
    );
    assert_eq!(uses(&map, "other"), None);
}

#[test]
fn update_records_the_uses_of_each_import() {
    let classes = class_map();
    let user = class(
        "a.Bar",
        "Bar",
        vec![
            ImportUnit::Package("p".to_string()),
            ImportUnit::Class("q.Lib".to_string()),
            ImportUnit::StaticClass("q.Util".to_string()),
            ImportUnit::StaticPrefix("z".to_string()),
        ],
    );
    let mut refs: DashMap<String, Vec<ReferenceUnit>> = DashMap::new();
    refs.insert("p.Foo".to_string(), vec![]);
    refs.insert("p.Baz".to_string(), vec![]);
    refs.insert("q.Lib".to_string(), vec![ReferenceUnit::Class("b.B".to_string())]);
    reference_update_class(&user, &classes, &mut refs);
    assert_eq!(uses(&refs, "p.Foo"), Some(vec![ReferenceUnit::Class("a.Bar".to_string())]));
    assert_eq!(uses(&refs, "p.Baz"), Some(vec![]));
    assert_eq!(
        uses(&refs, "q.Lib"),
        Some(vec![ReferenceUnit::Class("b.B".to_string()), ReferenceUnit::Class("a.Bar".to_string())])
    );
    assert_eq!(uses(&refs, "q.Util"), Some(vec![ReferenceUnit::StaticClass("a.Bar".to_string())]));
    assert_eq!(refs.len(), 4);
}

#[test]
fn init_records_every_project_class() {
    let classes = class_map();
    let project = vec![
        class("a.One", "One", vec![ImportUnit::Class("q.Lib".to_string())]),
        class("a.Two", "Two", vec![ImportUnit::Class("q.Lib".to_string())]),
    ];
    let mut refs: DashMap<String, Vec<ReferenceUnit>> = DashMap::new();
    init_refernece_map(&project, &classes, &mut refs);
    assert_eq!(
        uses(&refs, "q.Lib"),
        Some(vec![ReferenceUnit::Class("a.One".to_string()), ReferenceUnit::Class("a.Two".to_string())])
    );
}
