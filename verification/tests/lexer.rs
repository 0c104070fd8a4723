use java_lsp::java::lexer::{lex, Token};

/// The token stream of `LocalVariableTable.java`, written out with a space between tokens.
#[test]
fn local_variable_table() {
    let content = "package ch . emilycares ;\nimport java . util . * ;\npublic class LocalVariableTable {\nprivate HashSet < String > a = new HashSet < > ( ) ;\npublic void hereIsCode ( ) {\nHashMap < Integer , String > a = new HashMap < > ( ) ;\na . put ( 1 , \" \" ) ;\n}\npublic int hereIsCode ( int a , int b ) {\nint o = a + b ;\nreturn o - 1 ;\n}\n}";
    let tokens = lex(content).unwrap();
    let tokens: Vec<Token> = tokens.iter().map(|i| i.token.clone()).collect();
    assert_eq!(
        tokens,
        vec![
        Token::Package,
        Token::Identifier("ch".to_string()),
        Token::Dot,
        Token::Identifier("emilycares".to_string()),
        Token::Semicolon,
        Token::Import,
        Token::Identifier("java".to_string()),
        Token::Dot,
        Token::Identifier("util".to_string()),
        Token::Dot,
        Token::Star,
        Token::Semicolon,
        Token::Public,
        Token::Class,
        Token::Identifier("LocalVariableTable".to_string()),
        Token::LeftParenCurly,
        Token::Private,
        Token::Identifier("HashSet".to_string()),
        Token::Lt,
        Token::Identifier("String".to_string()),
        Token::Gt,
        Token::Identifier("a".to_string()),
        Token::Equal,
        Token::New,
        Token::Identifier("HashSet".to_string()),
        Token::Lt,
        Token::Gt,
        Token::LeftParen,
        Token::RightParen,
        Token::Semicolon,
        Token::Public,
        Token::Void,
        Token::Identifier("hereIsCode".to_string()),
        Token::LeftParen,
        Token::RightParen,
        Token::LeftParenCurly,
        Token::Identifier("HashMap".to_string()),
        Token::Lt,
        Token::Identifier("Integer".to_string()),
        Token::Comma,
        Token::Identifier("String".to_string()),
        Token::Gt,
        Token::Identifier("a".to_string()),
        Token::Equal,
        Token::New,
        Token::Identifier("HashMap".to_string()),
        Token::Lt,
        Token::Gt,
        Token::LeftParen,
        Token::RightParen,
        Token::Semicolon,
        Token::Identifier("a".to_string()),
        Token::Dot,
        Token::Identifier("put".to_string()),
        Token::LeftParen,
        Token::Number(1,),
        Token::Comma,
        Token::DoubleQuote,
        Token::DoubleQuote,
        Token::RightParen,
        Token::Semicolon,
        Token::RightParenCurly,
        Token::Public,
        Token::Int,
        Token::Identifier("hereIsCode".to_string()),
        Token::LeftParen,
        Token::Int,
        Token::Identifier("a".to_string()),
        Token::Comma,
        Token::Int,
        Token::Identifier("b".to_string()),
        Token::RightParen,
        Token::LeftParenCurly,
        Token::Int,
        Token::Identifier("o".to_string()),
        Token::Equal,
        Token::Identifier("a".to_string()),
        Token::Plus,
        Token::Identifier("b".to_string()),
        Token::Semicolon,
        Token::Return,
        Token::Identifier("o".to_string()),
        Token::Dash,
        Token::Number(1,),
        Token::Semicolon,
        Token::RightParenCurly,
        Token::RightParenCurly,
        Token::EOF,
        ]
    );
}

/// The token stream of `SuperInterface.java`, written out with a space between tokens.
#[test]
fn super_interface() {
    let content = "package ch . emilycares ;\nimport java . util . Collection ;\nimport java . util . List ;\nimport java . util . stream . Stream ;\nimport java . util . stream . StreamSupport ;\npublic interface SuperInterface < E > extends Collection , List {\ndefault Stream < E > stream ( ) {\nreturn StreamSupport . stream ( spliterator ( ) , false ) ;\n}\n}";
    let tokens = lex(content).unwrap();
    let tokens: Vec<Token> = tokens.iter().map(|i| i.token.clone()).collect();
    assert_eq!(
        tokens,
        vec![
        Token::Package,
        Token::Identifier("ch".to_string()),
        Token::Dot,
        Token::Identifier("emilycares".to_string()),
        Token::Semicolon,
        Token::Import,
        Token::Identifier("java".to_string()),
        Token::Dot,
        Token::Identifier("util".to_string()),
        Token::Dot,
        Token::Identifier("Collection".to_string()),
        Token::Semicolon,
        Token::Import,
        Token::Identifier("java".to_string()),
        Token::Dot,
        Token::Identifier("util".to_string()),
        Token::Dot,
        Token::Identifier("List".to_string()),
        Token::Semicolon,
        Token::Import,
        Token::Identifier("java".to_string()),
        Token::Dot,
        Token::Identifier("util".to_string()),
        Token::Dot,
        Token::Identifier("stream".to_string()),
        Token::Dot,
        Token::Identifier("Stream".to_string()),
        Token::Semicolon,
        Token::Import,
        Token::Identifier("java".to_string()),
        Token::Dot,
        Token::Identifier("util".to_string()),
        Token::Dot,
        Token::Identifier("stream".to_string()),
        Token::Dot,
        Token::Identifier("StreamSupport".to_string()),
        Token::Semicolon,
        Token::Public,
        Token::Interface,
        Token::Identifier("SuperInterface".to_string()),
        Token::Lt,
        Token::Identifier("E".to_string()),
        Token::Gt,
        Token::Extends,
        Token::Identifier("Collection".to_string()),
        Token::Comma,
        Token::Identifier("List".to_string()),
        Token::LeftParenCurly,
        Token::Identifier("default".to_string()),
        Token::Identifier("Stream".to_string()),
        Token::Lt,
        Token::Identifier("E".to_string()),
        Token::Gt,
        Token::Identifier("stream".to_string()),
        Token::LeftParen,
        Token::RightParen,
        Token::LeftParenCurly,
        Token::Return,
        Token::Identifier("StreamSupport".to_string()),
        Token::Dot,
        Token::Identifier("stream".to_string()),
        Token::LeftParen,
        Token::Identifier("spliterator".to_string()),
        Token::LeftParen,
        Token::RightParen,
        Token::Comma,
        Token::False,
        Token::RightParen,
        Token::Semicolon,
        Token::RightParenCurly,
        Token::RightParenCurly,
        Token::EOF,
        ]
    );
}

/// The token stream of `Everything.java`, written out with a space between tokens.
#[test]
fn lexer_everything() {
    let content = "package ch . emilycares ;\npublic class Everything {\npublic Everything ( ) {\n}\nint noprop ;\npublic int publicproperty ;\nprivate int privateproperty ;\nvoid method ( ) {\n}\npublic void public_method ( ) {\n}\nprivate void private_method ( ) {\n}\nint out ( ) {\nreturn 0 ;\n}\n/ * * * Documentation * @ param a * @ param b * @ return * / int add ( int a , int b ) {\nreturn a + b ;\n}\nstatic int sadd ( int a , int b ) {\nreturn a + b ;\n}\n}";
    let tokens = lex(content).unwrap();
    let tokens: Vec<Token> = tokens.iter().map(|i| i.token.clone()).collect();
    assert_eq!(
        tokens,
        vec![
        Token::Package,
        Token::Identifier("ch".to_string()),
        Token::Dot,
        Token::Identifier("emilycares".to_string()),
        Token::Semicolon,
        Token::Public,
        Token::Class,
        Token::Identifier("Everything".to_string()),
        Token::LeftParenCurly,
        Token::Public,
        Token::Identifier("Everything".to_string()),
        Token::LeftParen,
        Token::RightParen,
        Token::LeftParenCurly,
        Token::RightParenCurly,
        Token::Int,
        Token::Identifier("noprop".to_string()),
        Token::Semicolon,
        Token::Public,
        Token::Int,
        Token::Identifier("publicproperty".to_string()),
        Token::Semicolon,
        Token::Private,
        Token::Int,
        Token::Identifier("privateproperty".to_string()),
        Token::Semicolon,
        Token::Void,
        Token::Identifier("method".to_string()),
        Token::LeftParen,
        Token::RightParen,
        Token::LeftParenCurly,
        Token::RightParenCurly,
        Token::Public,
        Token::Void,
        Token::Identifier("public_method".to_string()),
        Token::LeftParen,
        Token::RightParen,
        Token::LeftParenCurly,
        Token::RightParenCurly,
        Token::Private,
        Token::Void,
        Token::Identifier("private_method".to_string()),
        Token::LeftParen,
        Token::RightParen,
        Token::LeftParenCurly,
        Token::RightParenCurly,
        Token::Int,
        Token::Identifier("out".to_string()),
        Token::LeftParen,
        Token::RightParen,
        Token::LeftParenCurly,
        Token::Return,
        Token::Number(0,),
        Token::Semicolon,
        Token::RightParenCurly,
        Token::Slash,
        Token::Star,
        Token::Star,
        Token::Star,
        Token::Identifier("Documentation".to_string()),
        Token::Star,
        Token::At,
        Token::Identifier("param".to_string()),
        Token::Identifier("a".to_string()),
        Token::Star,
        Token::At,
        Token::Identifier("param".to_string()),
        Token::Identifier("b".to_string()),
        Token::Star,
        Token::At,
        Token::Return,
        Token::Star,
        Token::Slash,
        Token::Int,
        Token::Identifier("add".to_string()),
        Token::LeftParen,
        Token::Int,
        Token::Identifier("a".to_string()),
        Token::Comma,
        Token::Int,
        Token::Identifier("b".to_string()),
        Token::RightParen,
        Token::LeftParenCurly,
        Token::Return,
        Token::Identifier("a".to_string()),
        Token::Plus,
        Token::Identifier("b".to_string()),
        Token::Semicolon,
        Token::RightParenCurly,
        Token::Identifier("static".to_string()),
        Token::Int,
        Token::Identifier("sadd".to_string()),
        Token::LeftParen,
        Token::Int,
        Token::Identifier("a".to_string()),
        Token::Comma,
        Token::Int,
        Token::Identifier("b".to_string()),
        Token::RightParen,
        Token::LeftParenCurly,
        Token::Return,
        Token::Identifier("a".to_string()),
        Token::Plus,
        Token::Identifier("b".to_string()),
        Token::Semicolon,
        Token::RightParenCurly,
        Token::RightParenCurly,
        Token::EOF,
        ]
    );
}

/// The token stream of `Thrower.java`, written out with a space between tokens.
#[test]
fn lexer_thrower() {
    let content = "package ch . emilycares ;\nimport java . io . IOException ;\npublic class Thrower {\npublic void ioThrower ( ) throws IOException {\n}\npublic void ioThrower ( int a ) throws IOException , IOException {\n}\n}";
    let tokens = lex(content).unwrap();
    let tokens: Vec<Token> = tokens.iter().map(|i| i.token.clone()).collect();
    assert_eq!(
        tokens,
        vec![
        Token::Package,
        Token::Identifier("ch".to_string()),
        Token::Dot,
        Token::Identifier("emilycares".to_string()),
        Token::Semicolon,
        Token::Import,
        Token::Identifier("java".to_string()),
        Token::Dot,
        Token::Identifier("io".to_string()),
        Token::Dot,
        Token::Identifier("IOException".to_string()),
        Token::Semicolon,
        Token::Public,
        Token::Class,
        Token::Identifier("Thrower".to_string()),
        Token::LeftParenCurly,
        Token::Public,
        Token::Void,
        Token::Identifier("ioThrower".to_string()),
        Token::LeftParen,
        Token::RightParen,
        Token::Throws,
        Token::Identifier("IOException".to_string()),
        Token::LeftParenCurly,
        Token::RightParenCurly,
        Token::Public,
        Token::Void,
        Token::Identifier("ioThrower".to_string()),
        Token::LeftParen,
        Token::Int,
        Token::Identifier("a".to_string()),
        Token::RightParen,
        Token::Throws,
        Token::Identifier("IOException".to_string()),
        Token::Comma,
        Token::Identifier("IOException".to_string()),
        Token::LeftParenCurly,
        Token::RightParenCurly,
        Token::RightParenCurly,
        Token::EOF,
        ]
    );
}
