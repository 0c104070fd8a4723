use java_lsp::dto::{Access, Availability};
use java_lsp::java::ast::{parse_file, AstAvailability, AstClass, AstFile, AstInterface, AstThing};
use java_lsp::java::error::{AstError, ExpectedToken};
use java_lsp::java::lexer::{lex, LexerError, PositionToken, Token};
use java_lsp::maven::tree::{parser, MavenTreeError};

fn tokens(s: &str) -> Vec<Token> {
    lex(s).unwrap().into_iter().map(|t| t.token).collect()
}

#[test]
fn one_word_lexes_to_itself() {
    assert_eq!(
        lex("static").unwrap(),
        vec![
            PositionToken { token: Token::Identifier("static".to_string()), line: 0, col: 0 },
            PositionToken { token: Token::EOF, line: 0, col: 6 },
        ]
    );
    assert_eq!(tokens("interface"), vec![Token::Interface, Token::EOF]);
    assert_eq!(tokens("Public"), vec![Token::Identifier("Public".to_string()), Token::EOF]);
    assert_eq!(tokens("a_b"), vec![Token::Identifier("a_b".to_string()), Token::EOF]);
}

#[test]
fn numbers_are_the_digit_runs() {
    let numbers: Vec<i64> = tokens("a 12 b007 x3(4")
        .into_iter()
        .filter_map(|t| match t {
            Token::Number(n) => Some(n),
            _ => None,
        })
        .collect();
    assert_eq!(numbers, vec![12, 7, 3, 4]);
}

#[test]
fn lexing_refuses_exactly_unknown_characters() {
    assert_eq!(lex("a # b"), Err(LexerError::UnknwonChar('#')));
    assert_eq!(lex("_a"), Err(LexerError::UnknwonChar('_')));
    assert_eq!(lex("x1_"), Err(LexerError::UnknwonChar('_')));
    assert_eq!(lex("a$ %"), Err(LexerError::UnknwonChar('$')));
    assert!(lex("a_ (b) {c} + - * @ . , ; / \\ \" ' = == ! != < <= > >=").is_ok());
}

#[test]
fn tokens_stand_on_their_lines() {
    let out = lex("a\r\nb\n\nc").unwrap();
    let lines: Vec<usize> = out.iter().map(|t| t.line).collect();
    assert_eq!(lines, vec![0, 2, 4, 4]);
}

#[test]
fn lexing_joined_texts() {
    let a = "int x = 1;\nfoo";
    let b = "bar ( )";
    let va = lex(a).unwrap();
    let vb = lex(b).unwrap();
    let joined = lex(&format!("{a}\n{b}")).unwrap();
    let mut expected: Vec<PositionToken> = va[..va.len() - 1].to_vec();
    expected.extend(vb.into_iter().map(|t| PositionToken { line: t.line + 2, ..t }));
    assert_eq!(joined, expected);
}

#[test]
fn header_gives_package_imports_and_kind() {
    let t = lex("package a.b;\nimport c.D;\nimport e.*;\nprotected interface X { }").unwrap();
    assert_eq!(
        parse_file(&t, 0),
        Ok(AstFile {
            package: "a.b".to_string(),
            imports: vec!["c.D".to_string(), "e.*".to_string()],
            thing: AstThing::Interface(AstInterface { avaliability: AstAvailability::Protected }),
        })
    );
}

#[test]
fn header_text_with_spaces_gives_its_file() {
    let t = lex("package org.demo;import java.util.List;import java.io.*; public class Main { int x; }").unwrap();
    assert_eq!(
        parse_file(&t, 0),
        Ok(AstFile {
            package: "org.demo".to_string(),
            imports: vec!["java.util.List".to_string(), "java.io.*".to_string()],
            thing: AstThing::Class(AstClass { avaliability: AstAvailability::Public }),
        })
    );
}

#[test]
fn file_without_package_is_refused() {
    assert_eq!(parse_file(&[], 0), Err(AstError::UnexpectedEOF));
    let t = lex("public class A").unwrap();
    assert_eq!(
        parse_file(&t, 0),
        Err(AstError::ExpectedToken(ExpectedToken { expected: Token::Package, found: Token::Public, line: 0, col: 0 }))
    );
}

#[test]
fn access_from_modifiers() {
    let none = Availability::default();
    assert_eq!(Access::from(&none, Access::from_bits(Access::Private)).bits, Access::Private);
    let public_static = Availability { public: true, is_static: true, ..Availability::default() };
    assert_eq!(
        Access::from(&public_static, Access::from_bits(Access::Private)).bits,
        Access::Public | Access::Static
    );
    let protected_final_sync =
        Availability { protected: true, is_final: true, synchronized: true, ..Availability::default() };
    assert_eq!(
        Access::from(&protected_final_sync, Access::empty()).bits,
        Access::Protected | Access::Final | Access::Synchronized
    );
}

#[test]
fn unknown_scope_anywhere_fails_the_tree() {
    let good = "[INFO] \"a:b:jar:1:compile\" -> \"g:h:jar:2:test\" ; \n";
    let bad = "[INFO] \"a:b:jar:1:compile\" -> \"g:h:jar:2:weird\" ; \n";
    assert_eq!(parser(format!("{good}{good}")).unwrap().deps.len(), 2);
    assert!(matches!(parser(format!("{good}{bad}")), Err(MavenTreeError::UnknownDependencyScope)));
    assert!(matches!(parser(format!("{bad}{good}")), Err(MavenTreeError::UnknownDependencyScope)));
}

