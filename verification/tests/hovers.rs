use java_lsp::dto::{Access, Class, Field, JType, Method, Parameter, SuperClass};
use java_lsp::hover::{class_to_hover, field_to_hover, format_variable_hoveer, methods_to_hover, variables_to_hover};
use java_lsp::treesitter::{Point, Range};
use java_lsp::variable::LocalVariable;

fn range() -> Range {
    Range { start_byte: 1, end_byte: 4, start_point: Point { row: 0, column: 1 }, end_point: Point { row: 0, column: 4 } }
}

fn method(name: &str, ret: JType, params: Vec<Parameter>) -> Method {
    Method { access: Access::empty(), name: name.to_string(), parameters: params, throws: vec![], ret, source: None }
}

#[test]
fn variables_and_functions() {
    let a = LocalVariable { level: 0, jtype: JType::Int, name: "a".to_string(), is_fun: false, range: range() };
    let f = LocalVariable { level: 0, jtype: JType::Class("java.lang.String".to_string()), name: "f".to_string(), is_fun: true, range: range() };
    assert_eq!(format_variable_hoveer(&a), "int a");
    assert_eq!(format_variable_hoveer(&f), "String f()");
    let h = variables_to_hover(&[a, f], range());
    assert_eq!(h.value, "int a\nString f()");
    assert_eq!(h.range, range());
}

#[test]
fn field_and_methods() {
    let f = Field { access: Access::empty(), name: "count".to_string(), jtype: JType::Long, source: None };
    assert_eq!(field_to_hover(&f, range()).value, "long count");
    let ms = vec![
        method("run", JType::Void, vec![]),
        method("add", JType::Int, vec![Parameter { name: Some("x".to_string()), jtype: JType::Int }]),
    ];
    assert_eq!(methods_to_hover(&ms, range()).value, "void run()\nint add(int x)");
    assert_eq!(methods_to_hover(&vec![], range()).value, "");
}

#[test]
fn class_heading_and_methods() {
    let c = Class {
        class_path: "a.B".to_string(),
        source: String::new(),
        access: Access::empty(),
        imports: vec![],
        name: "B".to_string(),
        methods: vec![method("run", JType::Void, vec![])],
        fields: vec![],
        super_class: SuperClass::Empty,
        super_interfaces: vec![],
    };
    assert_eq!(class_to_hover(&c, range()).value, "# B\n```java\nvoid run()\n```");
}
