use java_lsp::dto::JType;
use java_lsp::document::Document;
use java_lsp::java::syntax::{parse_java_syntax, NodeCursor};
use java_lsp::treesitter::{get_node_at_point, is_point_in_range, Point, Range, TreesitterError};
use java_lsp::variable::{get_vars, LocalVariable};
use std::path::PathBuf;

fn vars_at(content: &str, row: usize, column: usize) -> Vec<LocalVariable> {
    let doc = Document::setup(content, PathBuf::new(), String::new()).unwrap();
    get_vars(&doc, &Point { row, column })
}

#[test]
fn this_context() {
    let content = "
package ch.emilycares;

public class Test {

    String hello;
    String se;

    private String other = \"\";

    public void hello(String a) {
        String local = \"\";

        var lo = 
        return;
    }
}
        ";

    let out = vars_at(content, 12, 17);
    assert_eq!(
        out,
        vec![
            LocalVariable {
                level: 2,
                jtype: JType::Class("String".to_owned()),
                name: "hello".to_owned(),
                is_fun: false,
                range: Range {
                    start_byte: 57,
                    end_byte: 62,
                    start_point: Point { row: 5, column: 11 },
                    end_point: Point { row: 5, column: 16 },
                },
            },
            LocalVariable {
                level: 2,
                jtype: JType::Class("String".to_owned()),
                name: "se".to_owned(),
                is_fun: false,
                range: Range {
                    start_byte: 75,
                    end_byte: 77,
                    start_point: Point { row: 6, column: 11 },
                    end_point: Point { row: 6, column: 13 },
                },
            },
            LocalVariable {
                level: 2,
                jtype: JType::Class("String".to_owned()),
                name: "other".to_owned(),
                is_fun: false,
                range: Range {
                    start_byte: 99,
                    end_byte: 104,
                    start_point: Point { row: 8, column: 19 },
                    end_point: Point { row: 8, column: 24 },
                },
            },
            LocalVariable {
                level: 2,
                jtype: JType::Void,
                name: "hello".to_owned(),
                is_fun: true,
                range: Range {
                    start_byte: 128,
                    end_byte: 133,
                    start_point: Point {
                        row: 10,
                        column: 16,
                    },
                    end_point: Point {
                        row: 10,
                        column: 21,
                    },
                },
            },
            LocalVariable {
                level: 3,
                jtype: JType::Class("String".to_owned()),
                name: "a".to_owned(),
                is_fun: false,
                range: Range {
                    start_byte: 141,
                    end_byte: 142,
                    start_point: Point {
                        row: 10,
                        column: 29,
                    },
                    end_point: Point {
                        row: 10,
                        column: 30,
                    },
                },
            },
            LocalVariable {
                level: 3,
                jtype: JType::Class("String".to_owned()),
                name: "local".to_owned(),
                is_fun: false,
                range: Range {
                    start_byte: 161,
                    end_byte: 166,
                    start_point: Point {
                        row: 11,
                        column: 15,
                    },
                    end_point: Point {
                        row: 11,
                        column: 20,
                    },
                },
            },
            LocalVariable {
                level: 3,
                jtype: JType::Class("var".to_owned()),
                name: "lo".to_owned(),
                is_fun: false,
                range: Range {
                    start_byte: 186,
                    end_byte: 188,
                    start_point: Point {
                        row: 13,
                        column: 12,
                    },
                    end_point: Point {
                        row: 13,
                        column: 14,
                    },
                },
            },
        ]
    );
}

#[test]
fn class_static_variables() {
    let content = "
package ch.emilycares;
public class Test {
    private static Logger logger = LoggerFactory.getLogger(App.class);
     
}
        ";

    let out = vars_at(content, 4, 6);
    assert_eq!(
        out,
        vec![LocalVariable {
            level: 2,
            jtype: JType::Class("Logger".to_string()),
            name: "logger".to_string(),
            is_fun: false,
            range: Range {
                start_byte: 70,
                end_byte: 76,
                start_point: Point { row: 3, column: 26 },
                end_point: Point { row: 3, column: 32 },
            },
        },]
    );
}

#[test]
fn this_context_array() {
    let content = "
package ch.emilycares;

public class Test {

    String[] hello;
    String[] se;

    private String[] other = \"\";

    public void hello(String[] a) {
        String[] local = \"\";

        var lo = 
        return;
    }
}
        ";

    let out = vars_at(content, 12, 17);
    assert_eq!(
        out,
        vec![
            LocalVariable {
                level: 2,
                jtype: JType::Array(Box::new(JType::Class("String".to_owned()))),
                name: "hello".to_owned(),
                is_fun: false,
                range: Range {
                    start_byte: 59,
                    end_byte: 64,
                    start_point: Point { row: 5, column: 13 },
                    end_point: Point { row: 5, column: 18 },
                },
            },
            LocalVariable {
                level: 2,
                jtype: JType::Array(Box::new(JType::Class("String".to_owned()))),
                name: "se".to_owned(),
                is_fun: false,
                range: Range {
                    start_byte: 79,
                    end_byte: 81,
                    start_point: Point { row: 6, column: 13 },
                    end_point: Point { row: 6, column: 15 },
                },
            },
            LocalVariable {
                level: 2,
                jtype: JType::Array(Box::new(JType::Class("String".to_owned()))),
                name: "other".to_owned(),
                is_fun: false,
                range: Range {
                    start_byte: 105,
                    end_byte: 110,
                    start_point: Point { row: 8, column: 21 },
                    end_point: Point { row: 8, column: 26 },
                },
            },
            LocalVariable {
                level: 2,
                jtype: JType::Void,
                name: "hello".to_owned(),
                is_fun: true,
                range: Range {
                    start_byte: 134,
                    end_byte: 139,
                    start_point: Point {
                        row: 10,
                        column: 16,
                    },
                    end_point: Point {
                        row: 10,
                        column: 21,
                    },
                },
            },
            LocalVariable {
                level: 3,
                jtype: JType::Array(Box::new(JType::Class("String".to_owned()))),
                name: "a".to_owned(),
                is_fun: false,
                range: Range {
                    start_byte: 149,
                    end_byte: 150,
                    start_point: Point {
                        row: 10,
                        column: 31,
                    },
                    end_point: Point {
                        row: 10,
                        column: 32,
                    },
                },
            },
            LocalVariable {
                level: 3,
                jtype: JType::Array(Box::new(JType::Class("String".to_owned()))),
                name: "local".to_owned(),
                is_fun: false,
                range: Range {
                    start_byte: 171,
                    end_byte: 176,
                    start_point: Point {
                        row: 11,
                        column: 17,
                    },
                    end_point: Point {
                        row: 11,
                        column: 22,
                    },
                },
            },
            LocalVariable {
                level: 3,
                jtype: JType::Class("var".to_owned()),
                name: "lo".to_owned(),
                is_fun: false,
                range: Range {
                    start_byte: 196,
                    end_byte: 198,
                    start_point: Point {
                        row: 13,
                        column: 12,
                    },
                    end_point: Point {
                        row: 13,
                        column: 14,
                    },
                },
            },
        ]
    );
}

#[test]
fn get_loop_vars_base() {
    let content = "
package ch.emilycares;
public class Test {
    public void hello() {
        List<String> names = List.of(\"a\", \"b\");
        for (int i = 0; i < 5; i++) {
          for (String name : names) {
            names.stream().map((n, m) -> {
              n.chars().asDoubleStream().filter(c -> true);
             return n + \"_\";
            });
          }
        }
        return;
    }
}
        ";

    let out = vars_at(content, 8, 54);
    assert_eq!(
        out,
        vec![
            LocalVariable {
                level: 2,
                jtype: JType::Void,
                name: "hello".to_string(),
                is_fun: true,
                range: Range {
                    start_byte: 60,
                    end_byte: 65,
                    start_point: Point { row: 3, column: 16 },
                    end_point: Point { row: 3, column: 21 },
                },
            },
            LocalVariable {
                level: 3,
                jtype: JType::Class("List<String>".to_owned(),),
                name: "names".to_string(),
                is_fun: false,
                range: Range {
                    start_byte: 91,
                    end_byte: 96,
                    start_point: Point { row: 4, column: 21 },
                    end_point: Point { row: 4, column: 26 },
                },
            },
            LocalVariable {
                level: 5,
                jtype: JType::Int,
                name: "i".to_string(),
                is_fun: false,
                range: Range {
                    start_byte: 135,
                    end_byte: 136,
                    start_point: Point { row: 5, column: 17 },
                    end_point: Point { row: 5, column: 18 },
                },
            },
            LocalVariable {
                level: 7,
                jtype: JType::Class("String".to_owned(),),
                name: "name".to_string(),
                is_fun: false,
                range: Range {
                    start_byte: 178,
                    end_byte: 182,
                    start_point: Point { row: 6, column: 22 },
                    end_point: Point { row: 6, column: 26 },
                },
            },
            LocalVariable {
                level: 12,
                jtype: JType::Void,
                name: "n".to_string(),
                is_fun: false,
                range: Range {
                    start_byte: 226,
                    end_byte: 227,
                    start_point: Point { row: 7, column: 32 },
                    end_point: Point { row: 7, column: 33 },
                },
            },
            LocalVariable {
                level: 12,
                jtype: JType::Void,
                name: "m".to_string(),
                is_fun: false,
                range: Range {
                    start_byte: 229,
                    end_byte: 230,
                    start_point: Point { row: 7, column: 35 },
                    end_point: Point { row: 7, column: 36 },
                },
            },
            LocalVariable {
                level: 17,
                jtype: JType::Void,
                name: "c".to_string(),
                is_fun: false,
                range: Range {
                    start_byte: 285,
                    end_byte: 286,
                    start_point: Point { row: 8, column: 48 },
                    end_point: Point { row: 8, column: 49 },
                },
            },
        ]
    );
}

#[test]
fn lambda_identifier_parameter() {
    let content = "class A{void f(){g(x->x);}}";
    let out = vars_at(content, 0, 22);
    assert_eq!(
        out,
        vec![
            LocalVariable {
                level: 2,
                jtype: JType::Void,
                name: "f".to_string(),
                is_fun: true,
                range: Range {
                    start_byte: 13,
                    end_byte: 14,
                    start_point: Point { row: 0, column: 13 },
                    end_point: Point { row: 0, column: 14 },
                },
            },
            LocalVariable {
                level: 8,
                jtype: JType::Void,
                name: "x".to_string(),
                is_fun: false,
                range: Range {
                    start_byte: 19,
                    end_byte: 20,
                    start_point: Point { row: 0, column: 19 },
                    end_point: Point { row: 0, column: 20 },
                },
            },
        ]
    );
}

#[test]
fn point_after_the_text_sees_nothing() {
    let content = "class A{}";
    assert_eq!(vars_at(content, 5, 0), vec![]);
}

#[test]
fn node_at_point_is_the_leaf_there() {
    let content = "class A { int x; }";
    let ns = parse_java_syntax(content.as_bytes()).unwrap();
    let k = get_node_at_point(&ns, &Point { row: 0, column: 14 }).unwrap();
    assert_eq!(ns[k].kind, "identifier");
    assert_eq!((ns[k].span[0], ns[k].span[1]), (14, 15));
}

#[test]
fn node_at_point_after_the_text_is_not_found() {
    let content = "class A { int x; }";
    let ns = parse_java_syntax(content.as_bytes()).unwrap();
    assert_eq!(get_node_at_point(&ns, &Point { row: 3, column: 0 }), Err(TreesitterError::NoNodeFound));
}

#[test]
fn point_in_range_includes_both_ends() {
    let range = Range {
        start_byte: 0,
        end_byte: 10,
        start_point: Point { row: 1, column: 4 },
        end_point: Point { row: 2, column: 3 },
    };
    assert!(is_point_in_range(&Point { row: 1, column: 4 }, &range));
    assert!(is_point_in_range(&Point { row: 2, column: 3 }, &range));
    assert!(is_point_in_range(&Point { row: 1, column: 90 }, &range));
    assert!(!is_point_in_range(&Point { row: 1, column: 3 }, &range));
    assert!(!is_point_in_range(&Point { row: 2, column: 4 }, &range));
}

#[test]
fn cursor_moves_step_over_comments() {
    let content = "class A { int a; /* note */ int b; }";
    let ns = parse_java_syntax(content.as_bytes()).unwrap();
    let body = ns.iter().position(|n| n.kind == "class_body").unwrap();
    let mut cursor = NodeCursor { root: 0, pos: body };
    assert!(cursor.first_child(&ns));
    assert_eq!(ns[cursor.pos].kind, "{");
    assert!(cursor.sibling(&ns));
    assert_eq!(ns[cursor.pos].kind, "field_declaration");
    let first_field = cursor.pos;
    assert!(cursor.sibling(&ns));
    assert_eq!(ns[cursor.pos].kind, "field_declaration");
    assert_ne!(cursor.pos, first_field);
    let second_field = cursor.pos;
    // The node before the second field is the comment, and stepping over it
    // leads forward to the second field again.
    assert!(cursor.previous_sibling(&ns));
    assert_eq!(cursor.pos, second_field);
    assert!(cursor.parent(&ns));
    assert_eq!(cursor.pos, body);
}
