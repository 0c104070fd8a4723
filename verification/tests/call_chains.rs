use java_lsp::call_chain::{get_call_chain, CallItem};
use java_lsp::document::Document;
use java_lsp::treesitter::Point;
use std::path::PathBuf;


#[test]
fn call_chain_call_chain_base() {
    let content = "
package ch.emilycares;

public class Test {

    public void hello(String a) {
        String local = \"\";

        var lo = local. 
        return;
    }
}
        ";
    let doc = Document::setup(content, PathBuf::new(), String::new()).unwrap();

    let out = get_call_chain(&doc, &Point { row: 8, column: 24 });
    assert_eq!(out, Some(vec![CallItem::Variable("local".to_string()),]));
}

pub const SYMBOL_METHOD: &str = "
package ch.emilycares;

public class Test {

    public void hello() {
        String local = \"\";

        var lo = local.concat(\"hehe\"). 
        return;
    }
}
        ";

#[test]
fn call_chain_call_chain_method() {
    let doc = Document::setup(SYMBOL_METHOD, PathBuf::new(), String::new()).unwrap();

    let out = get_call_chain(&doc, &Point { row: 8, column: 40 });
    assert_eq!(
        out,
        Some(vec![
            CallItem::Variable("local".to_string()),
            CallItem::MethodCall("concat".to_string()),
            CallItem::FieldAccess("return".to_string()),
        ])
    );
}

#[test]
fn call_chain_call_chain_field() {
    let content = "
package ch.emilycares;
public class Test {
    public void hello() {
        Thing local = \"\";
        var lo = local.a.
        return;
    }
}
";
    let doc = Document::setup(content, PathBuf::new(), String::new()).unwrap();

    let out = get_call_chain(&doc, &Point { row: 5, column: 26 });
    assert_eq!(
        out,
        Some(vec![
            CallItem::Variable("local".to_string()),
            CallItem::FieldAccess("a".to_string())
        ])
    );
}

#[test]
fn call_chain_call_chain_method_base() {
    let content = "
package ch.emilycares;
public class GreetingResource {
    String a;
    public String hello() {
        a.concat(\"\"). 
        return \"huh\";
    }
}
";
    let doc = Document::setup(content, PathBuf::new(), String::new()).unwrap();

    let out = get_call_chain(&doc, &Point { row: 5, column: 24 });
    assert_eq!(
        out,
        Some(vec![
            CallItem::Variable("a".to_string()),
            CallItem::MethodCall("concat".to_string())
        ])
    );
}

#[test]
fn call_chain_call_chain_method_info() {
    let content = "
package ch.emilycares;
public class GreetingResource {
    public String hello() {
        a.concat(\"\").other();
        return \"huh\";
    }
}
";
    let doc = Document::setup(content, PathBuf::new(), String::new()).unwrap();

    // the cursor is on the concat method_call
    let out = get_call_chain(&doc, &Point { row: 4, column: 14 });
    assert_eq!(
        out,
        Some(vec![
            CallItem::Variable("a".to_string()),
            CallItem::MethodCall("concat".to_string())
        ])
    );
}

#[test]
fn call_chain_call_chain_field_method() {
    let content = "
package ch.emilycares;
public class Test {
    public void hello() {
        Thing local = \"\";
        var lo = local.a.b(). ;
        return;
    }
}
";
    let doc = Document::setup(content, PathBuf::new(), String::new()).unwrap();

    let out = get_call_chain(&doc, &Point { row: 5, column: 30 });
    assert_eq!(
        out,
        Some(vec![
            CallItem::Variable("local".to_string()),
            CallItem::FieldAccess("a".to_string()),
            CallItem::MethodCall("b".to_string()),
        ])
    );
}

#[test]
fn call_chain_call_chain_menthod_field() {
    let content = "
package ch.emilycares;
public class Test {
    public void hello() {
        Thing local = \"\";
        var lo = local.a().b.
        return;
    }
}
";
    let doc = Document::setup(content, PathBuf::new(), String::new()).unwrap();

    let out = get_call_chain(&doc, &Point { row: 5, column: 30 });
    assert_eq!(
        out,
        Some(vec![
            CallItem::Variable("local".to_string()),
            CallItem::MethodCall("a".to_string()),
            CallItem::FieldAccess("b".to_string())
        ])
    );
}

#[test]
fn call_chain_call_chain_semicolon_simple() {
    let content = "
package ch.emilycares;
public class Test {
    public void hello() {
        Thing local = \"\";
        var lo = local. ;
        return;
    }
}
";
    let doc = Document::setup(content, PathBuf::new(), String::new()).unwrap();

    let out = get_call_chain(&doc, &Point { row: 5, column: 23 });
    assert_eq!(out, Some(vec![CallItem::Variable("local".to_string())]));
}

#[test]
fn call_chain_call_chain_semicolon_field() {
    let content = "
package ch.emilycares;
public class Test {
    public void hello() {
        Thing local = \"\";
        int c = local.a().c.;
        return;
    }
}
";
    let doc = Document::setup(content, PathBuf::new(), String::new()).unwrap();

    let out = get_call_chain(&doc, &Point { row: 5, column: 28 });
    assert_eq!(
        out,
        Some(vec![
            CallItem::Variable("local".to_string()),
            CallItem::MethodCall("a".to_string()),
            CallItem::FieldAccess("c".to_string()),
        ])
    );
}

#[test]
fn call_chain_call_chain_semicolon_method() {
    let content = "
package ch.emilycares;
public class Test {
    public void hello() {
        Thing local = \"\";
        int c = local.a.c().;
        return;
    }
}
";
    let doc = Document::setup(content, PathBuf::new(), String::new()).unwrap();

    let out = get_call_chain(&doc, &Point { row: 5, column: 28 });
    assert_eq!(
        out,
        Some(vec![
            CallItem::Variable("local".to_string()),
            CallItem::FieldAccess("a".to_string()),
            CallItem::MethodCall("c".to_string()),
        ])
    );
}

#[test]
fn call_chain_call_chain_statement() {
    let content = "
package ch.emilycares;
public class Test {
    public void hello() {
        Thing local = \"\";
        local.a.c().;
        return;
    }
}
";
    let doc = Document::setup(content, PathBuf::new(), String::new()).unwrap();

    let out = get_call_chain(&doc, &Point { row: 5, column: 20 });
    assert_eq!(
        out,
        Some(vec![
            CallItem::Variable("local".to_string()),
            CallItem::FieldAccess("a".to_string()),
            CallItem::MethodCall("c".to_string()),
        ])
    );
}

#[test]
fn call_chain_call_chain_class() {
    let content = "
package ch.emilycares;
public class Test {
    public void hello() {
        Thing local = \"\";
        String. 
        return;
    }
}
";
    let doc = Document::setup(content, PathBuf::new(), String::new()).unwrap();

    let out = get_call_chain(&doc, &Point { row: 5, column: 16 });
    assert_eq!(out, Some(vec![CallItem::Class("String".to_string()),]));
}

#[test]
fn call_chain_call_chain_varible_class() {
    let content = "
package ch.emilycares;
public class Test {
    public void hello() {
        Thing local = \"\";
        var local = String. 
        return;
    }
}
";
    let doc = Document::setup(content, PathBuf::new(), String::new()).unwrap();

    let out = get_call_chain(&doc, &Point { row: 5, column: 28 });
    assert_eq!(out, Some(vec![CallItem::Class("String".to_string()),]));
}

#[test]
fn call_chain_call_chain_argument() {
    let content = "
package ch.emilycares;
public class Test {
    public void hello() {
        Thing local = \"\";
        local.concat( )
        return;
    }
}
";
    let doc = Document::setup(content, PathBuf::new(), String::new()).unwrap();

    let out = get_call_chain(&doc, &Point { row: 5, column: 22 });
    assert_eq!(out, None);
}

#[test]
fn call_chain_call_chain_argument_var() {
    let content = "
package ch.emilycares;
public class Test {
    public void hello() {
        Thing local = \"\";
        local.concat(local. );
        return;
    }
}
";
    let doc = Document::setup(content, PathBuf::new(), String::new()).unwrap();

    let out = get_call_chain(&doc, &Point { row: 5, column: 27 });
    assert_eq!(out, Some(vec![CallItem::Variable("local".to_string()),]));
}

#[test]
fn call_chain_call_chain_argument_var_no_dot() {
    let content = "
package ch.emilycares;
public class Test {
    public void hello() {
        Thing local = \"\";
        local.concat(local );
        return;
    }
}
";
    let doc = Document::setup(content, PathBuf::new(), String::new()).unwrap();

    let out = get_call_chain(&doc, &Point { row: 5, column: 27 });
    assert_eq!(out, Some(vec![CallItem::Variable("local".to_string()),]));
}

#[test]
fn call_chain_call_chain_argument_second_var() {
    let content = "
package ch.emilycares;
public class Test {
    public void hello() {
        Thing local = \"\";
        a.concat(b, c. );
        return;
    }
}
";
    let doc = Document::setup(content, PathBuf::new(), String::new()).unwrap();

    let out = get_call_chain(&doc, &Point { row: 5, column: 23 });
    assert_eq!(out, Some(vec![CallItem::Variable("c".to_string()),]));
}

#[test]
fn call_chain_call_chain_argument_second_var_no_dot() {
    let content = "
package ch.emilycares;
public class Test {
    public void hello() {
        Thing local = \"\";
        a.concat(b, c );
        return;
    }
}
";
    let doc = Document::setup(content, PathBuf::new(), String::new()).unwrap();

    let out = get_call_chain(&doc, &Point { row: 5, column: 22 });
    assert_eq!(out, Some(vec![CallItem::Variable("c".to_string()),]));
}

#[test]
fn call_chain_call_chain_argument_field() {
    let content = "
package ch.emilycares;
public class Test {
    public void hello() {
        Thing local = \"\";
        a.concat(b.a  );
        return;
    }
}
";
    let doc = Document::setup(content, PathBuf::new(), String::new()).unwrap();

    let out = get_call_chain(&doc, &Point { row: 5, column: 22 });
    assert_eq!(
        out,
        Some(vec![
            CallItem::Variable("b".to_string()),
            CallItem::FieldAccess("a".to_string()),
        ])
    );
}

#[test]
fn call_chain_call_chain_argument_method() {
    let content = "
package ch.emilycares;
public class Test {
    public void hello() {
        Thing local = \"\";
        a.concat(b.a() );
        return;
    }
}
";
    let doc = Document::setup(content, PathBuf::new(), String::new()).unwrap();

    let out = get_call_chain(&doc, &Point { row: 5, column: 23 });
    assert_eq!(
        out,
        Some(vec![
            CallItem::Variable("b".to_string()),
            CallItem::MethodCall("a".to_string()),
        ])
    );
}

#[test]
fn call_chain_call_chain_if() {
    let content = "
package ch.emilycares;
public class Test {
    public void hello() {
        if (a ) {
        }
        return;
    }
}
";
    let doc = Document::setup(content, PathBuf::new(), String::new()).unwrap();

    let out = get_call_chain(&doc, &Point { row: 4, column: 14 });
    assert_eq!(out, Some(vec![CallItem::Variable("a".to_string()),]));
}

#[test]
fn call_chain_call_chain_if_condition() {
    let content = "
package ch.emilycares;
public class Test {
    public void hello() {
        if (a == b ) {
        }
        return;
    }
}
";
    let doc = Document::setup(content, PathBuf::new(), String::new()).unwrap();

    let out = get_call_chain(&doc, &Point { row: 4, column: 19 });
    assert_eq!(out, Some(vec![CallItem::Variable("b".to_string()),]));
}

#[test]
fn call_chain_call_chain_return() {
    let content = "
package ch.emilycares;
public class Test {
    public void hello() {
        return a. ;
    }
}
";
    let doc = Document::setup(content, PathBuf::new(), String::new()).unwrap();

    let out = get_call_chain(&doc, &Point { row: 4, column: 18 });
    assert_eq!(out, Some(vec![CallItem::Variable("a".to_string()),]));
}

#[test]
fn call_chain_call_chain_return_method_call() {
    let content = "
package ch.emilycares;
public class Test {
    public void hello() {
        return a.b(). ;
    }
}
";
    let doc = Document::setup(content, PathBuf::new(), String::new()).unwrap();

    let out = get_call_chain(&doc, &Point { row: 4, column: 22 });
    assert_eq!(
        out,
        Some(vec![
            CallItem::Variable("a".to_string()),
            CallItem::MethodCall("b".to_string())
        ])
    );
}
