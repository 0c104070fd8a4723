use java_lsp::dto::ImportUnit;
use java_lsp::imports::{get_imported_classpaths, is_imported};
use java_lsp::java::syntax::parse_java_syntax;

fn imported(demo: &str) -> Vec<ImportUnit> {
    let ns = parse_java_syntax(demo.as_bytes()).unwrap();
    get_imported_classpaths(&ns, demo.as_bytes())
}

#[test]
fn classes() {
    let demo = "package heh.haha;

import java.util.List;
import java.util.stream.Collectors;
import static org.junit.jupiter.api.Assertions;
import static org.junit.jupiter.api.Assertions.assertEquals;
 
public class Controller {}";
    assert_eq!(
        imported(demo),
        vec![
            ImportUnit::Package("heh.haha".to_string()),
            ImportUnit::Class("java.util.List".to_string()),
            ImportUnit::Class("java.util.stream.Collectors".to_string()),
            ImportUnit::StaticClass("org.junit.jupiter.api.Assertions".to_string()),
            ImportUnit::StaticClassMethod(
                "org.junit.jupiter.api.Assertions".to_string(),
                "assertEquals".to_string()
            )
        ]
    );
}

#[test]
fn stat() {
    let demo = "package heh.haha;

import java.util.*;
import static java.util.*;

public class Controller {}";
    assert_eq!(
        imported(demo),
        vec![
            ImportUnit::Package("heh.haha".to_string()),
            ImportUnit::Prefix("java.util".to_string()),
            ImportUnit::StaticPrefix("java.util".to_string())
        ]
    );
}

#[test]
fn imported_by_class_prefix_or_package() {
    let imports = vec![
        ImportUnit::Package("a.b".to_string()),
        ImportUnit::Class("java.util.List".to_string()),
        ImportUnit::StaticClassMethod("org.Assertions".to_string(), "assertEquals".to_string()),
        ImportUnit::Prefix("java.io".to_string()),
    ];
    assert!(is_imported(&imports, "java.util.List"));
    assert!(is_imported(&imports, "a.b.Other"));
    assert!(is_imported(&imports, "org.Assertions"));
    assert!(is_imported(&imports, "java.io.File"));
    assert!(!is_imported(&imports, "java.util.Map"));
    assert!(!is_imported(&imports, "org.Assertions.assertEquals"));
    assert!(!is_imported(&[], "java.util.List"));
}
