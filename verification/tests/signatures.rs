use dashmap::DashMap;
use java_lsp::document::Document;
use java_lsp::dto::{Access, Class, JType, Method, Parameter, SuperClass};
use java_lsp::signature::{signature_driver, ParameterInformation, SignatureHelp, SignatureInformation};
use java_lsp::treesitter::Point;
use std::path::PathBuf;

fn string_param() -> Parameter {
    Parameter { name: None, jtype: JType::Class("java.lang.String".to_string()) }
}

fn concat(params: usize) -> Method {
    Method {
        access: Access::from_bits(Access::Public),
        name: "concat".to_string(),
        parameters: (0..params).map(|_| string_param()).collect(),
        throws: vec![],
        ret: JType::Class("java.lang.String".to_string()),
        source: None,
    }
}

fn class(name: &str, methods: Vec<Method>) -> Class {
    Class {
        class_path: String::new(),
        source: String::new(),
        access: Access::from_bits(Access::Public),
        imports: vec![],
        name: name.to_string(),
        methods,
        fields: vec![],
        super_class: SuperClass::Empty,
        super_interfaces: vec![],
    }
}

fn info(params: usize) -> SignatureInformation {
    SignatureInformation {
        label: "concat".to_string(),
        documentation: "String".to_string(),
        parameters: (0..params)
            .map(|_| ParameterInformation { label: "String".to_string(), documentation: None })
            .collect(),
    }
}

const ONE_ARGUMENT: &str = "
package ch.emilycares;
public class Test {
    public String hello() {
        String local = \"hey \";
        return local.concat( );
    }
}
";

#[test]
fn signarure_base() {
    let class_map: DashMap<String, Class> = DashMap::new();
    class_map.insert("java.lang.String".to_string(), class("String", vec![concat(1)]));
    let doc = Document::setup(ONE_ARGUMENT, PathBuf::new(), "".to_string()).unwrap();
    let out = signature_driver(&doc, &Point { row: 5, column: 29 }, &class("Test", vec![]), &class_map).unwrap();
    assert_eq!(out, SignatureHelp { signatures: vec![info(1)], active_signature: Some(0), active_parameter: Some(0) });
}

#[test]
fn signature_multi_name() {
    let class_map: DashMap<String, Class> = DashMap::new();
    class_map.insert("java.lang.String".to_string(), class("String", vec![concat(1), concat(2)]));
    let doc = Document::setup(ONE_ARGUMENT, PathBuf::new(), "".to_string()).unwrap();
    let out = signature_driver(&doc, &Point { row: 5, column: 29 }, &class("Test", vec![]), &class_map).unwrap();
    assert_eq!(
        out,
        SignatureHelp { signatures: vec![info(1), info(2)], active_signature: Some(0), active_parameter: Some(0) }
    );
}
