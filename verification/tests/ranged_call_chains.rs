use java_lsp::call_chain_ranges::{get_call_chain, validate, CallItem};
use java_lsp::java::syntax::parse_java_syntax;
use java_lsp::treesitter::{Point, Range};


#[test]
fn ranged_call_chain_base() {
    let content = "
package ch.emilycares;

public class Test {

    public void hello(String a) {
        String local = \"\";

        var lo = local. 
        return;
    }
}
        ";
    let ns = parse_java_syntax(content.as_bytes()).unwrap();

    let out = get_call_chain(&ns, content.as_bytes(), &Point { row: 8, column: 24 });
    assert_eq!(
        out,
        Some(vec![CallItem::ClassOrVariable {
            name: "local".to_string(),
            range: Range {
                start_byte: 125,
                end_byte: 130,
                start_point: Point { row: 8, column: 17 },
                end_point: Point { row: 8, column: 22 }
            }
        }])
    );
}

const SYMBOL_METHOD: &str = "
package ch.emilycares;

public class Test {

    public void hello() {
        String local = \"\";

        var lo = local.concat(\"hehe\"). 
        return;
    }
}
        ";

#[test]
fn ranged_call_chain_method() {
    let ns = parse_java_syntax(SYMBOL_METHOD.as_bytes()).unwrap();

    let out = get_call_chain(&ns, SYMBOL_METHOD.as_bytes(), &Point { row: 8, column: 40 });
    assert_eq!(
        out,
        Some(vec![
            CallItem::ClassOrVariable {
                name: "local".to_string(),
                range: Range {
                    start_byte: 117,
                    end_byte: 122,
                    start_point: Point { row: 8, column: 17 },
                    end_point: Point { row: 8, column: 22 },
                }
            },
            CallItem::MethodCall {
                name: "concat".to_string(),
                range: Range {
                    start_byte: 123,
                    end_byte: 129,
                    start_point: Point { row: 8, column: 23 },
                    end_point: Point { row: 8, column: 29 }
                },
            },
            CallItem::FieldAccess {
                name: "return".to_string(),
                range: Range {
                    start_byte: 148,
                    end_byte: 154,
                    start_point: Point { row: 9, column: 8 },
                    end_point: Point { row: 9, column: 14 },
                }
            }
        ])
    );
}

#[test]
fn call_chain_string() {
    let content = r#"
package ch.emilycares;
public class Test {
    public void hello() {
        String a = "";
        return "".  ;
    }
}
"#;
    let ns = parse_java_syntax(content.as_bytes()).unwrap();

    let out = get_call_chain(&ns, content.as_bytes(), &Point { row: 5, column: 19 });
    assert_eq!(
        out,
        Some(vec![CallItem::Class {
            name: "String".to_string(),
            range: Range {
                start_byte: 108,
                end_byte: 110,
                start_point: Point { row: 5, column: 15 },
                end_point: Point { row: 5, column: 17 },
            }
        }])
    );
}

#[test]
fn ranged_call_chain_field() {
    let content = "
package ch.emilycares;
public class Test {
    public void hello() {
        Thing local = \"\";
        var lo = local.a.
        return;
    }
}
";
    let ns = parse_java_syntax(content.as_bytes()).unwrap();

    let out = get_call_chain(&ns, content.as_bytes(), &Point { row: 5, column: 26 });
    assert_eq!(
        out,
        Some(vec![
            CallItem::ClassOrVariable {
                name: "local".to_string(),
                range: Range {
                    start_byte: 113,
                    end_byte: 118,
                    start_point: Point { row: 5, column: 17 },
                    end_point: Point { row: 5, column: 22 },
                }
            },
            CallItem::FieldAccess {
                name: "a".to_string(),
                range: Range {
                    start_byte: 119,
                    end_byte: 120,
                    start_point: Point { row: 5, column: 23 },
                    end_point: Point { row: 5, column: 24 },
                }
            }
        ])
    );
}

#[test]
fn ranged_call_chain_method_base() {
    let content = "
package ch.emilycares;
public class GreetingResource {
    String a;
    public String hello() {
        a.concat(\"\"). 
        return \"huh\";
    }
}
";
    let ns = parse_java_syntax(content.as_bytes()).unwrap();

    let out = get_call_chain(&ns, content.as_bytes(), &Point { row: 5, column: 24 });
    assert_eq!(
        out,
        Some(vec![
            CallItem::ClassOrVariable {
                name: "a".to_string(),
                range: Range {
                    start_byte: 106,
                    end_byte: 107,
                    start_point: Point { row: 5, column: 8 },
                    end_point: Point { row: 5, column: 9 },
                }
            },
            CallItem::MethodCall {
                name: "concat".to_string(),
                range: Range {
                    start_byte: 108,
                    end_byte: 114,
                    start_point: Point { row: 5, column: 10 },
                    end_point: Point { row: 5, column: 16 }
                }
            }
        ])
    );
}

#[test]
fn ranged_call_chain_method_info() {
    let content = "
package ch.emilycares;
public class GreetingResource {
    public String hello() {
        a.concat(\"\").other();
        return \"huh\";
    }
}
";
    let ns = parse_java_syntax(content.as_bytes()).unwrap();

    // the cursor is on the concat method_call
    let out = get_call_chain(&ns, content.as_bytes(), &Point { row: 4, column: 14 });
    assert_eq!(
        out,
        Some(vec![
            CallItem::ClassOrVariable {
                name: "a".to_string(),
                range: Range {
                    start_byte: 92,
                    end_byte: 93,
                    start_point: Point { row: 4, column: 8 },
                    end_point: Point { row: 4, column: 9 },
                }
            },
            CallItem::MethodCall {
                name: "concat".to_string(),
                range: Range {
                    start_byte: 94,
                    end_byte: 100,
                    start_point: Point { row: 4, column: 10 },
                    end_point: Point { row: 4, column: 16 }
                }
            }
        ])
    );
}

#[test]
fn ranged_call_chain_field_method() {
    let content = "
package ch.emilycares;
public class Test {
    public void hello() {
        Thing local = \"\";
        var lo = local.a.b(). ;
        return;
    }
}
";
    let ns = parse_java_syntax(content.as_bytes()).unwrap();

    let out = get_call_chain(&ns, content.as_bytes(), &Point { row: 5, column: 30 });
    assert_eq!(
        out,
        Some(vec![
            CallItem::ClassOrVariable {
                name: "local".to_string(),
                range: Range {
                    start_byte: 113,
                    end_byte: 118,
                    start_point: Point { row: 5, column: 17 },
                    end_point: Point { row: 5, column: 22 }
                }
            },
            CallItem::FieldAccess {
                name: "a".to_string(),
                range: Range {
                    start_byte: 119,
                    end_byte: 120,
                    start_point: Point { row: 5, column: 23 },
                    end_point: Point { row: 5, column: 24 }
                },
            },
            CallItem::MethodCall {
                name: "b".to_string(),
                range: Range {
                    start_byte: 121,
                    end_byte: 122,
                    start_point: Point { row: 5, column: 25 },
                    end_point: Point { row: 5, column: 26 }
                }
            },
        ])
    );
}

#[test]
fn ranged_call_chain_menthod_field() {
    let content = "
package ch.emilycares;
public class Test {
    public void hello() {
        Thing local = \"\";
        var lo = local.a().b.
        return;
    }
}
";
    let ns = parse_java_syntax(content.as_bytes()).unwrap();

    let out = get_call_chain(&ns, content.as_bytes(), &Point { row: 5, column: 30 });
    assert_eq!(
        out,
        Some(vec![
            CallItem::ClassOrVariable {
                name: "local".to_string(),
                range: Range {
                    start_byte: 113,
                    end_byte: 118,
                    start_point: Point { row: 5, column: 17 },
                    end_point: Point { row: 5, column: 22 },
                }
            },
            CallItem::MethodCall {
                name: "a".to_string(),
                range: Range {
                    start_byte: 119,
                    end_byte: 120,
                    start_point: Point { row: 5, column: 23 },
                    end_point: Point { row: 5, column: 24 },
                }
            },
            CallItem::FieldAccess {
                name: "b".to_string(),
                range: Range {
                    start_byte: 123,
                    end_byte: 124,
                    start_point: Point { row: 5, column: 27 },
                    end_point: Point { row: 5, column: 28 },
                }
            }
        ])
    );
}

#[test]
fn ranged_call_chain_semicolon_simple() {
    let content = "
package ch.emilycares;
public class Test {
    public void hello() {
        Thing local = \"\";
        var lo = local. ;
        return;
    }
}
";
    let ns = parse_java_syntax(content.as_bytes()).unwrap();

    let out = get_call_chain(&ns, content.as_bytes(), &Point { row: 5, column: 23 });
    assert_eq!(
        out,
        Some(vec![CallItem::ClassOrVariable {
            name: "local".to_string(),
            range: Range {
                start_byte: 113,
                end_byte: 118,
                start_point: Point { row: 5, column: 17 },
                end_point: Point { row: 5, column: 22 },
            }
        }])
    );
}

#[test]
fn ranged_call_chain_semicolon_field() {
    let content = "
package ch.emilycares;
public class Test {
    public void hello() {
        Thing local = \"\";
        int c = local.a().c.;
        return;
    }
}
";
    let ns = parse_java_syntax(content.as_bytes()).unwrap();

    let out = get_call_chain(&ns, content.as_bytes(), &Point { row: 5, column: 28 });
    assert_eq!(
        out,
        Some(vec![
            CallItem::ClassOrVariable {
                name: "local".to_string(),
                range: Range {
                    start_byte: 112,
                    end_byte: 117,
                    start_point: Point { row: 5, column: 16 },
                    end_point: Point { row: 5, column: 21 },
                }
            },
            CallItem::MethodCall {
                name: "a".to_string(),
                range: Range {
                    start_byte: 118,
                    end_byte: 119,
                    start_point: Point { row: 5, column: 22 },
                    end_point: Point { row: 5, column: 23 },
                }
            },
            CallItem::FieldAccess {
                name: "c".to_string(),
                range: Range {
                    start_byte: 122,
                    end_byte: 123,
                    start_point: Point { row: 5, column: 26 },
                    end_point: Point { row: 5, column: 27 },
                }
            },
        ])
    );
}

#[test]
fn ranged_call_chain_semicolon_method() {
    let content = "
package ch.emilycares;
public class Test {
    public void hello() {
        Thing local = \"\";
        int c = local.a.c().;
        return;
    }
}
";
    let ns = parse_java_syntax(content.as_bytes()).unwrap();

    let out = get_call_chain(&ns, content.as_bytes(), &Point { row: 5, column: 28 });
    assert_eq!(
        out,
        Some(vec![
            CallItem::ClassOrVariable {
                name: "local".to_string(),
                range: Range {
                    start_byte: 112,
                    end_byte: 117,
                    start_point: Point { row: 5, column: 16 },
                    end_point: Point { row: 5, column: 21 }
                }
            },
            CallItem::FieldAccess {
                name: "a".to_string(),
                range: Range {
                    start_byte: 118,
                    end_byte: 119,
                    start_point: Point { row: 5, column: 22 },
                    end_point: Point { row: 5, column: 23 },
                }
            },
            CallItem::MethodCall {
                name: "c".to_string(),
                range: Range {
                    start_byte: 120,
                    end_byte: 121,
                    start_point: Point { row: 5, column: 24 },
                    end_point: Point { row: 5, column: 25 },
                }
            },
        ])
    );
}

#[test]
fn ranged_call_chain_statement() {
    let content = "
package ch.emilycares;
public class Test {
    public void hello() {
        Thing local = \"\";
        local.a.c().;
        return;
    }
}
";
    let ns = parse_java_syntax(content.as_bytes()).unwrap();

    let out = get_call_chain(&ns, content.as_bytes(), &Point { row: 5, column: 20 });
    assert_eq!(
        out,
        Some(vec![
            CallItem::ClassOrVariable {
                name: "local".to_string(),
                range: Range {
                    start_byte: 104,
                    end_byte: 109,
                    start_point: Point { row: 5, column: 8 },
                    end_point: Point { row: 5, column: 13 },
                }
            },
            CallItem::FieldAccess {
                name: "a".to_string(),
                range: Range {
                    start_byte: 110,
                    end_byte: 111,
                    start_point: Point { row: 5, column: 14 },
                    end_point: Point { row: 5, column: 15 },
                }
            },
            CallItem::MethodCall {
                name: "c".to_string(),
                range: Range {
                    start_byte: 112,
                    end_byte: 113,
                    start_point: Point { row: 5, column: 16 },
                    end_point: Point { row: 5, column: 17 },
                }
            },
        ])
    );
}

#[test]
fn ranged_call_chain_class() {
    let content = "
package ch.emilycares;
public class Test {
    public void hello() {
        Thing local = \"\";
        String. 
        return;
    }
}
";
    let ns = parse_java_syntax(content.as_bytes()).unwrap();

    let out = get_call_chain(&ns, content.as_bytes(), &Point { row: 5, column: 16 });
    assert_eq!(
        out,
        Some(vec![CallItem::ClassOrVariable {
            name: "String".to_string(),
            range: Range {
                start_byte: 104,
                end_byte: 110,
                start_point: Point { row: 5, column: 8 },
                end_point: Point { row: 5, column: 14 },
            }
        },])
    );
}

#[test]
fn ranged_call_chain_varible_class() {
    let content = "
package ch.emilycares;
public class Test {
    public void hello() {
        Thing local = \"\";
        var local = String. 
        return;
    }
}
";
    let ns = parse_java_syntax(content.as_bytes()).unwrap();

    let out = get_call_chain(&ns, content.as_bytes(), &Point { row: 5, column: 28 });
    assert_eq!(
        out,
        Some(vec![CallItem::ClassOrVariable {
            name: "String".to_string(),
            range: Range {
                start_byte: 116,
                end_byte: 122,
                start_point: Point { row: 5, column: 20 },
                end_point: Point { row: 5, column: 26 },
            }
        },])
    );
}

#[test]
fn ranged_call_chain_argument() {
    let content = "
package ch.emilycares;
public class Test {
    public void hello() {
        Thing local = \"\";
        local.concat( )
        return;
    }
}
";
    let ns = parse_java_syntax(content.as_bytes()).unwrap();

    let out = get_call_chain(&ns, content.as_bytes(), &Point { row: 5, column: 22 });
    assert_eq!(
        out,
        Some(vec![CallItem::ArgumentList {
            prev: vec![
                CallItem::ClassOrVariable {
                    name: "local".to_string(),
                    range: Range {
                        start_byte: 104,
                        end_byte: 109,
                        start_point: Point { row: 5, column: 8 },
                        end_point: Point { row: 5, column: 13 },
                    },
                },
                CallItem::MethodCall {
                    name: "concat".to_string(),
                    range: Range {
                        start_byte: 110,
                        end_byte: 116,
                        start_point: Point { row: 5, column: 14 },
                        end_point: Point { row: 5, column: 20 },
                    },
                },
            ],
            range: Range {
                start_byte: 116,
                end_byte: 119,
                start_point: Point { row: 5, column: 20 },
                end_point: Point { row: 5, column: 23 },
            },
            filled_params: vec![vec![]],
            active_param: 0
        },],)
    );
}

#[test]
fn ranged_call_chain_argument_var() {
    let content = "
package ch.emilycares;
public class Test {
    public void hello() {
        Thing local = \"\";
        local.concat(local. );
        return;
    }
}
";
    let ns = parse_java_syntax(content.as_bytes()).unwrap();

    let out = get_call_chain(&ns, content.as_bytes(), &Point { row: 5, column: 27 });
    assert_eq!(
        out,
        Some(vec![
            CallItem::ArgumentList {
                prev: vec![
                    CallItem::ClassOrVariable {
                        name: "local".to_string(),
                        range: Range {
                            start_byte: 104,
                            end_byte: 109,
                            start_point: Point { row: 5, column: 8 },
                            end_point: Point { row: 5, column: 13 },
                        },
                    },
                    CallItem::MethodCall {
                        name: "concat".to_string(),
                        range: Range {
                            start_byte: 110,
                            end_byte: 116,
                            start_point: Point { row: 5, column: 14 },
                            end_point: Point { row: 5, column: 20 },
                        },
                    },
                ],
                range: Range {
                    start_byte: 116,
                    end_byte: 125,
                    start_point: Point { row: 5, column: 20 },
                    end_point: Point { row: 5, column: 29 },
                },
                filled_params: vec![vec![CallItem::ClassOrVariable {
                    name: "local".to_string(),
                    range: Range {
                        start_byte: 117,
                        end_byte: 122,
                        start_point: Point { row: 5, column: 21 },
                        end_point: Point { row: 5, column: 26 }
                    }
                }]],
                active_param: 0
            },
            CallItem::ClassOrVariable {
                name: "local".to_string(),
                range: Range {
                    start_byte: 117,
                    end_byte: 122,
                    start_point: Point { row: 5, column: 21 },
                    end_point: Point { row: 5, column: 26 }
                }
            }
        ])
    );
}

#[test]
fn ranged_call_chain_argument_var_no_dot() {
    let content = "
package ch.emilycares;
public class Test {
    public void hello() {
        Thing local = \"\";
        local.concat(local );
        return;
    }
}
";
    let ns = parse_java_syntax(content.as_bytes()).unwrap();

    let out = get_call_chain(&ns, content.as_bytes(), &Point { row: 5, column: 27 });
    assert_eq!(
        out,
        Some(vec![
            CallItem::ArgumentList {
                prev: vec![
                    CallItem::ClassOrVariable {
                        name: "local".to_string(),
                        range: Range {
                            start_byte: 104,
                            end_byte: 109,
                            start_point: Point { row: 5, column: 8 },
                            end_point: Point { row: 5, column: 13 },
                        },
                    },
                    CallItem::MethodCall {
                        name: "concat".to_string(),
                        range: Range {
                            start_byte: 110,
                            end_byte: 116,
                            start_point: Point { row: 5, column: 14 },
                            end_point: Point { row: 5, column: 20 },
                        },
                    },
                ],
                range: Range {
                    start_byte: 116,
                    end_byte: 124,
                    start_point: Point { row: 5, column: 20 },
                    end_point: Point { row: 5, column: 28 },
                },
                filled_params: vec![vec![CallItem::ClassOrVariable {
                    name: "local".to_string(),
                    range: Range {
                        start_byte: 117,
                        end_byte: 122,
                        start_point: Point { row: 5, column: 21 },
                        end_point: Point { row: 5, column: 26 }
                    }
                }]],
                active_param: 0
            },
            CallItem::ClassOrVariable {
                name: "local".to_string(),
                range: Range {
                    start_byte: 117,
                    end_byte: 122,
                    start_point: Point { row: 5, column: 21 },
                    end_point: Point { row: 5, column: 26 }
                }
            }
        ])
    );
}

#[test]
fn call_chain_argument_active_param_not_last() {
    let content = "
package ch.emilycares;
public class Test {
    public void hello() {
        Thing local = \"\";
        a.concat(b , c);
        return;
    }
}
";
    let ns = parse_java_syntax(content.as_bytes()).unwrap();

    let out = get_call_chain(&ns, content.as_bytes(), &Point { row: 5, column: 19 });
    assert_eq!(
        out,
        Some(vec![
            CallItem::ArgumentList {
                prev: vec![
                    CallItem::ClassOrVariable {
                        name: "a".to_string(),
                        range: Range {
                            start_byte: 104,
                            end_byte: 105,
                            start_point: Point { row: 5, column: 8 },
                            end_point: Point { row: 5, column: 9 },
                        },
                    },
                    CallItem::MethodCall {
                        name: "concat".to_string(),
                        range: Range {
                            start_byte: 106,
                            end_byte: 112,
                            start_point: Point { row: 5, column: 10 },
                            end_point: Point { row: 5, column: 16 },
                        },
                    },
                ],
                range: Range {
                    start_byte: 112,
                    end_byte: 119,
                    start_point: Point { row: 5, column: 16 },
                    end_point: Point { row: 5, column: 23 },
                },
                filled_params: vec![
                    vec![CallItem::ClassOrVariable {
                        name: "b".to_string(),
                        range: Range {
                            start_byte: 113,
                            end_byte: 114,
                            start_point: Point { row: 5, column: 17 },
                            end_point: Point { row: 5, column: 18 },
                        }
                    }],
                    vec![CallItem::ClassOrVariable {
                        name: "c".to_string(),
                        range: Range {
                            start_byte: 117,
                            end_byte: 118,
                            start_point: Point { row: 5, column: 21 },
                            end_point: Point { row: 5, column: 22 },
                        }
                    }],
                ],
                active_param: 0
            },
            CallItem::ClassOrVariable {
                name: "b".to_string(),
                range: Range {
                    start_byte: 113,
                    end_byte: 114,
                    start_point: Point { row: 5, column: 17 },
                    end_point: Point { row: 5, column: 18 },
                }
            }
        ])
    );
}

#[test]
fn ranged_call_chain_argument_second_var_no_dot() {
    let content = "
package ch.emilycares;
public class Test {
    public void hello() {
        Thing local = \"\";
        a.concat(b, c );
        return;
    }
}
";
    let ns = parse_java_syntax(content.as_bytes()).unwrap();

    let out = get_call_chain(&ns, content.as_bytes(), &Point { row: 5, column: 22 });
    assert_eq!(
        out,
        Some(vec![
            CallItem::ArgumentList {
                prev: vec![
                    CallItem::ClassOrVariable {
                        name: "a".to_string(),
                        range: Range {
                            start_byte: 104,
                            end_byte: 105,
                            start_point: Point { row: 5, column: 8 },
                            end_point: Point { row: 5, column: 9 },
                        },
                    },
                    CallItem::MethodCall {
                        name: "concat".to_string(),
                        range: Range {
                            start_byte: 106,
                            end_byte: 112,
                            start_point: Point { row: 5, column: 10 },
                            end_point: Point { row: 5, column: 16 },
                        },
                    },
                ],
                range: Range {
                    start_byte: 112,
                    end_byte: 119,
                    start_point: Point { row: 5, column: 16 },
                    end_point: Point { row: 5, column: 23 },
                },
                filled_params: vec![
                    vec![CallItem::ClassOrVariable {
                        name: "b".to_string(),
                        range: Range {
                            start_byte: 113,
                            end_byte: 114,
                            start_point: Point { row: 5, column: 17 },
                            end_point: Point { row: 5, column: 18 },
                        }
                    }],
                    vec![CallItem::ClassOrVariable {
                        name: "c".to_string(),
                        range: Range {
                            start_byte: 116,
                            end_byte: 117,
                            start_point: Point { row: 5, column: 20 },
                            end_point: Point { row: 5, column: 21 },
                        }
                    }]
                ],
                active_param: 1
            },
            CallItem::ClassOrVariable {
                name: "c".to_string(),
                range: Range {
                    start_byte: 116,
                    end_byte: 117,
                    start_point: Point { row: 5, column: 20 },
                    end_point: Point { row: 5, column: 21 },
                }
            }
        ])
    );
}

#[test]
fn ranged_call_chain_argument_field() {
    let content = "
package ch.emilycares;
public class Test {
    public void hello() {
        Thing local = \"\";
        a.concat(b.a  );
        return;
    }
}
";
    let ns = parse_java_syntax(content.as_bytes()).unwrap();

    let out = get_call_chain(&ns, content.as_bytes(), &Point { row: 5, column: 22 });
    assert_eq!(
        out,
        Some(vec![
            CallItem::ArgumentList {
                prev: vec![
                    CallItem::ClassOrVariable {
                        name: "a".to_string(),
                        range: Range {
                            start_byte: 104,
                            end_byte: 105,
                            start_point: Point { row: 5, column: 8 },
                            end_point: Point { row: 5, column: 9 },
                        },
                    },
                    CallItem::MethodCall {
                        name: "concat".to_string(),
                        range: Range {
                            start_byte: 106,
                            end_byte: 112,
                            start_point: Point { row: 5, column: 10 },
                            end_point: Point { row: 5, column: 16 },
                        },
                    },
                ],
                range: Range {
                    start_byte: 112,
                    end_byte: 119,
                    start_point: Point { row: 5, column: 16 },
                    end_point: Point { row: 5, column: 23 },
                },
                filled_params: vec![vec![
                    CallItem::ClassOrVariable {
                        name: "b".to_string(),
                        range: Range {
                            start_byte: 113,
                            end_byte: 114,
                            start_point: Point { row: 5, column: 17 },
                            end_point: Point { row: 5, column: 18 },
                        }
                    },
                    CallItem::FieldAccess {
                        name: "a".to_string(),
                        range: Range {
                            start_byte: 115,
                            end_byte: 116,
                            start_point: Point { row: 5, column: 19 },
                            end_point: Point { row: 5, column: 20 }
                        },
                    },
                ]],
                active_param: 0
            },
            CallItem::ClassOrVariable {
                name: "b".to_string(),
                range: Range {
                    start_byte: 113,
                    end_byte: 114,
                    start_point: Point { row: 5, column: 17 },
                    end_point: Point { row: 5, column: 18 },
                }
            },
            CallItem::FieldAccess {
                name: "a".to_string(),
                range: Range {
                    start_byte: 115,
                    end_byte: 116,
                    start_point: Point { row: 5, column: 19 },
                    end_point: Point { row: 5, column: 20 }
                },
            },
        ])
    );
}
#[test]
fn call_chain_arguments() {
    let content = "
package ch.emilycares;
public class Test {
    public void hello() {
        a.concat( );
        return;
    }
}
";
    let ns = parse_java_syntax(content.as_bytes()).unwrap();

    let out = get_call_chain(&ns, content.as_bytes(), &Point { row: 4, column: 18 });
    assert_eq!(
        out,
        Some(vec![CallItem::ArgumentList {
            prev: vec![
                CallItem::ClassOrVariable {
                    name: "a".to_string(),
                    range: Range {
                        start_byte: 78,
                        end_byte: 79,
                        start_point: Point { row: 4, column: 8 },
                        end_point: Point { row: 4, column: 9 },
                    },
                },
                CallItem::MethodCall {
                    name: "concat".to_string(),
                    range: Range {
                        start_byte: 80,
                        end_byte: 86,
                        start_point: Point { row: 4, column: 10 },
                        end_point: Point { row: 4, column: 16 },
                    },
                }
            ],
            range: Range {
                start_byte: 86,
                end_byte: 89,
                start_point: Point { row: 4, column: 16 },
                end_point: Point { row: 4, column: 19 },
            },
            filled_params: vec![vec![]],
            active_param: 0
        }])
    );
}

#[test]
fn ranged_call_chain_argument_method() {
    let content = "
package ch.emilycares;
public class Test {
    public void hello() {
        Thing local = \"\";
        a.concat(b.a() );
        return;
    }
}
";
    let ns = parse_java_syntax(content.as_bytes()).unwrap();

    let out = get_call_chain(&ns, content.as_bytes(), &Point { row: 5, column: 23 });
    assert_eq!(
        out,
        Some(vec![
            CallItem::ArgumentList {
                prev: vec![
                    CallItem::ClassOrVariable {
                        name: "a".to_string(),
                        range: Range {
                            start_byte: 104,
                            end_byte: 105,
                            start_point: Point { row: 5, column: 8 },
                            end_point: Point { row: 5, column: 9 },
                        },
                    },
                    CallItem::MethodCall {
                        name: "concat".to_string(),
                        range: Range {
                            start_byte: 106,
                            end_byte: 112,
                            start_point: Point { row: 5, column: 10 },
                            end_point: Point { row: 5, column: 16 },
                        },
                    },
                ],
                range: Range {
                    start_byte: 112,
                    end_byte: 120,
                    start_point: Point { row: 5, column: 16 },
                    end_point: Point { row: 5, column: 24 },
                },
                filled_params: vec![vec![
                    CallItem::ClassOrVariable {
                        name: "b".to_string(),
                        range: Range {
                            start_byte: 113,
                            end_byte: 114,
                            start_point: Point { row: 5, column: 17 },
                            end_point: Point { row: 5, column: 18 }
                        }
                    },
                    CallItem::MethodCall {
                        name: "a".to_string(),
                        range: Range {
                            start_byte: 115,
                            end_byte: 116,
                            start_point: Point { row: 5, column: 19 },
                            end_point: Point { row: 5, column: 20 },
                        }
                    },
                ]],
                active_param: 0
            },
            CallItem::ClassOrVariable {
                name: "b".to_string(),
                range: Range {
                    start_byte: 113,
                    end_byte: 114,
                    start_point: Point { row: 5, column: 17 },
                    end_point: Point { row: 5, column: 18 }
                }
            },
            CallItem::MethodCall {
                name: "a".to_string(),
                range: Range {
                    start_byte: 115,
                    end_byte: 116,
                    start_point: Point { row: 5, column: 19 },
                    end_point: Point { row: 5, column: 20 },
                }
            },
        ])
    );
}

#[test]
fn ranged_call_chain_if() {
    let content = "
package ch.emilycares;
public class Test {
    public void hello() {
        if (a ) {
        }
        return;
    }
}
";
    let ns = parse_java_syntax(content.as_bytes()).unwrap();

    let out = get_call_chain(&ns, content.as_bytes(), &Point { row: 4, column: 14 });
    assert_eq!(
        out,
        Some(vec![CallItem::ClassOrVariable {
            name: "a".to_string(),
            range: Range {
                start_byte: 82,
                end_byte: 83,
                start_point: Point { row: 4, column: 12 },
                end_point: Point { row: 4, column: 13 },
            }
        }])
    );
}

#[test]
fn ranged_call_chain_if_condition() {
    let content = "
package ch.emilycares;
public class Test {
    public void hello() {
        if (a == b ) {
        }
        return;
    }
}
";
    let ns = parse_java_syntax(content.as_bytes()).unwrap();

    let out = get_call_chain(&ns, content.as_bytes(), &Point { row: 4, column: 19 });
    assert_eq!(
        out,
        Some(vec![CallItem::ClassOrVariable {
            name: "b".to_string(),
            range: Range {
                start_byte: 87,
                end_byte: 88,
                start_point: Point { row: 4, column: 17 },
                end_point: Point { row: 4, column: 18 },
            }
        },])
    );
}

#[test]
fn ranged_call_chain_return() {
    let content = "
package ch.emilycares;
public class Test {
    public void hello() {
        return a. ;
    }
}
";
    let ns = parse_java_syntax(content.as_bytes()).unwrap();

    let out = get_call_chain(&ns, content.as_bytes(), &Point { row: 4, column: 18 });
    assert_eq!(
        out,
        Some(vec![CallItem::ClassOrVariable {
            name: "a".to_string(),
            range: Range {
                start_byte: 85,
                end_byte: 86,
                start_point: Point { row: 4, column: 15 },
                end_point: Point { row: 4, column: 16 }
            }
        },])
    );
}

#[test]
fn ranged_call_chain_return_method_call() {
    let content = "
package ch.emilycares;
public class Test {
    public void hello() {
        return a.b(). ;
    }
}
";
    let ns = parse_java_syntax(content.as_bytes()).unwrap();

    let out = get_call_chain(&ns, content.as_bytes(), &Point { row: 4, column: 22 });
    assert_eq!(
        out,
        Some(vec![
            CallItem::ClassOrVariable {
                name: "a".to_string(),
                range: Range {
                    start_byte: 85,
                    end_byte: 86,
                    start_point: Point { row: 4, column: 15 },
                    end_point: Point { row: 4, column: 16 },
                }
            },
            CallItem::MethodCall {
                name: "b".to_string(),
                range: Range {
                    start_byte: 87,
                    end_byte: 88,
                    start_point: Point { row: 4, column: 17 },
                    end_point: Point { row: 4, column: 18 },
                }
            }
        ])
    );
}

#[test]
fn call_chain_new_instance() {
    let content = "
package ch.emilycares;
public class Test {
    public void hello() {
        new String()
        return;
    }
}
";
    let ns = parse_java_syntax(content.as_bytes()).unwrap();

    let out = get_call_chain(&ns, content.as_bytes(), &Point { row: 4, column: 22 });
    assert_eq!(
        out,
        Some(vec![CallItem::Class {
            name: "String".to_string(),
            range: Range {
                start_byte: 82,
                end_byte: 88,
                start_point: Point { row: 4, column: 12 },
                end_point: Point { row: 4, column: 18 }
            }
        }])
    );
}

#[test]
fn call_chain_new_instance_field() {
    let content = "
package ch.emilycares;
public class Test {
    public void hello() {
        new String().a.
        return;
    }
}
";
    let ns = parse_java_syntax(content.as_bytes()).unwrap();

    let out = get_call_chain(&ns, content.as_bytes(), &Point { row: 4, column: 22 });
    assert_eq!(
        out,
        Some(vec![
            CallItem::Class {
                name: "String".to_string(),
                range: Range {
                    start_byte: 82,
                    end_byte: 88,
                    start_point: Point { row: 4, column: 12 },
                    end_point: Point { row: 4, column: 18 },
                }
            },
            CallItem::FieldAccess {
                name: "a".to_string(),
                range: Range {
                    start_byte: 91,
                    end_byte: 92,
                    start_point: Point { row: 4, column: 21 },
                    end_point: Point { row: 4, column: 22 },
                }
            }
        ])
    );
}

#[test]
fn call_chain_new_instance_method() {
    let content = "
package ch.emilycares;
public class Test {
    public void hello() {
        new String().a(). ;
        return;
    }
}
";
    let ns = parse_java_syntax(content.as_bytes()).unwrap();

    let out = get_call_chain(&ns, content.as_bytes(), &Point { row: 4, column: 25 });
    assert_eq!(
        out,
        Some(vec![
            CallItem::Class {
                name: "String".to_string(),
                range: Range {
                    start_byte: 82,
                    end_byte: 88,
                    start_point: Point { row: 4, column: 12 },
                    end_point: Point { row: 4, column: 18 },
                }
            },
            CallItem::MethodCall {
                name: "a".to_string(),
                range: Range {
                    start_byte: 91,
                    end_byte: 92,
                    start_point: Point { row: 4, column: 21 },
                    end_point: Point { row: 4, column: 22 },
                }
            }
        ])
    );
}

fn span(start: usize, end: usize) -> Range {
    Range {
        start_byte: start,
        end_byte: end,
        start_point: Point { row: 0, column: start },
        end_point: Point { row: 0, column: end },
    }
}

#[test]
fn validate_cuts_the_chain_at_the_link_under_the_point() {
    let chain = vec![
        CallItem::ClassOrVariable { name: "local".to_string(), range: span(0, 5) },
        CallItem::MethodCall { name: "concat".to_string(), range: span(6, 12) },
        CallItem::FieldAccess { name: "a".to_string(), range: span(13, 14) },
    ];
    let (i, relevant) = validate(&chain, &Point { row: 0, column: 8 }).unwrap();
    assert_eq!(i, 1);
    assert_eq!(relevant, &chain[0..2]);
    let (i, relevant) = validate(&chain, &Point { row: 3, column: 0 }).unwrap();
    assert_eq!(i, 0);
    assert_eq!(relevant, &chain[0..1]);
}
