use java_lsp::java::syntax::parse_java_syntax;
use java_lsp::position::{
    get_class_position, get_field_positions, get_item_ranges, get_method_positions, get_symbols, get_type_usage,
    ItemQuery, PositionSymbol,
};
use java_lsp::treesitter::{Point, Range};

#[test]
fn position_method_pos_base() {
    let content = b"
package ch.emilycares;
public class Test {
    public void hello() {
        if (a == b ) {
        }
        return;
    }
}
";
    let out = get_method_positions(content, "hello");
    assert_eq!(
        out,
        Ok(vec![PositionSymbol::Range(Range {
            start_byte: 60,
            end_byte: 65,
            start_point: Point { row: 3, column: 16 },
            end_point: Point { row: 3, column: 21 },
        }),])
    );
}

#[test]
fn position_field_pos_base() {
    let content = b"
package ch.emilycares;
public class Test {
    public String a;
}
";
    let out = get_field_positions(content, "a");
    assert_eq!(
        out,
        Ok(vec![PositionSymbol::Range(Range {
            start_byte: 62,
            end_byte: 63,
            start_point: Point { row: 3, column: 18 },
            end_point: Point { row: 3, column: 19 },
        }),])
    );
}

#[test]
fn position_class_pos_base() {
    let content = b"
package ch.emilycares;
public class Test {}
";
    let out = get_class_position(content, "Test");
    assert_eq!(
        out,
        Ok(vec![PositionSymbol::Range(Range {
            start_byte: 37,
            end_byte: 41,
            start_point: Point { row: 2, column: 13 },
            end_point: Point { row: 2, column: 17 },
        }),])
    );
}

#[test]
fn position_type_usage_base() {
    let content = br#"
package ch.emilycares;
public class Test {
private StringBuilder sb = new StringBuilder();
}
"#;
    let tree = parse_java_syntax(content).unwrap();
    let out = get_type_usage(content, "StringBuilder", &tree);

    assert_eq!(out.unwrap().len(), 2);
}

#[test]
fn symbols_name_every_declared_type() {
    let content = b"
package a;
public class Outer {
    interface Inner {}
    enum Kind { A }
    private int count;
}
";
    let out = get_symbols(content).unwrap();
    let names: Vec<(String, String)> = out
        .iter()
        .map(|s| match s {
            PositionSymbol::Symbol { name, kind, .. } => (name.clone(), kind.clone()),
            PositionSymbol::Range(_) => panic!("a symbol carries its name"),
        })
        .collect();
    assert_eq!(
        names,
        vec![
            ("Outer".to_string(), "class_declaration".to_string()),
            ("Inner".to_string(), "interface_declaration".to_string()),
            ("Kind".to_string(), "enum_declaration".to_string()),
        ]
    );
    assert_eq!(out[0].get_range().start_point, Point { row: 2, column: 13 });
}

#[test]
fn positions_only_match_their_declarations() {
    let content = b"
package a;
public class a {
    private int a;
    void a() { a.a(); }
}
";
    assert_eq!(get_class_position(content, "a").unwrap().len(), 1);
    assert_eq!(get_field_positions(content, "a").unwrap().len(), 1);
    assert_eq!(get_method_positions(content, "a").unwrap().len(), 1);
    assert_eq!(get_method_positions(content, "b").unwrap().len(), 0);
    let tree = parse_java_syntax(content).unwrap();
    // the object of the invocation `a.a()`
    assert_eq!(get_item_ranges(&tree, content, ItemQuery::TypeUsages, Some("a")).unwrap().len(), 1);
}
