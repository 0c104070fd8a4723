//! The vocabulary of Java: the letters that name its primitive types in
//! descriptors, the words of its keywords and the characters of its
//! symbols, and how the descriptor reader, the display of types and the
//! lexer agree with them.
use vstd::prelude::*;

use crate::class::field_type;
use crate::dto::{display, JTypeView};
use crate::java::ast::{availability_of, AstAvailability};
use crate::java::jtype::jtype_at;
use crate::java::lexer::{compare_tokens, keyword_token, punct_token, Token, TokenView};
use crate::java::syntax::{node_text, NodeView};
use crate::tyres::builtin_name;

verus! {

/// The base type characters of a field descriptor (JVMS 4.3.2, table 4.3-A)
/// and the Java keyword of the type that each stands for.
pub open spec fn base_type_keyword(c: char) -> Option<Seq<char>> {
    if c == 'B' {
        Some("byte"@)
    } else if c == 'C' {
        Some("char"@)
    } else if c == 'D' {
        Some("double"@)
    } else if c == 'F' {
        Some("float"@)
    } else if c == 'I' {
        Some("int"@)
    } else if c == 'J' {
        Some("long"@)
    } else if c == 'S' {
        Some("short"@)
    } else if c == 'Z' {
        Some("boolean"@)
    } else {
        None
    }
}

/// The primitive types of Java.
pub open spec fn is_primitive(t: JTypeView) -> bool {
    ||| t is Byte
    ||| t is Char
    ||| t is Double
    ||| t is Float
    ||| t is Int
    ||| t is Long
    ||| t is Short
    ||| t is Boolean
}

/// The word that spells each keyword token of the lexer.
pub open spec fn keyword_word(t: Token) -> Option<Seq<char>> {
    match t {
        Token::If => Some("if"@),
        Token::True => Some("true"@),
        Token::False => Some("false"@),
        Token::While => Some("while"@),
        Token::Package => Some("package"@),
        Token::Import => Some("import"@),
        Token::Public => Some("public"@),
        Token::Private => Some("private"@),
        Token::Protected => Some("protected"@),
        Token::Class => Some("class"@),
        Token::Interface => Some("interface"@),
        Token::Enum => Some("enum"@),
        Token::Void => Some("void"@),
        Token::Throws => Some("throws"@),
        Token::Int => Some("int"@),
        Token::Double => Some("double"@),
        Token::Float => Some("float"@),
        Token::Extends => Some("extends"@),
        Token::Implements => Some("implements"@),
        Token::New => Some("new"@),
        Token::Return => Some("return"@),
        _ => None,
    }
}


/// Each base type character of a descriptor reads, without consuming
/// anything more, as a primitive type whose display is the Java keyword
/// that JVMS 4.3.2 gives for that character.
pub proof fn lemma_base_types_read(s: Seq<char>, c: char, i: int)
    requires
        base_type_keyword(c) is Some,
    ensures
        field_type(s, Some(c), i).1 == i,
        is_primitive(field_type(s, Some(c), i).0),
        display(field_type(s, Some(c), i).0) == base_type_keyword(c)->0,
{
}

/// Distinct base type characters read as distinct types.
pub proof fn lemma_base_types_distinct(s: Seq<char>, c1: char, c2: char, i: int)
    requires
        base_type_keyword(c1) is Some,
        base_type_keyword(c2) is Some,
        c1 != c2,
    ensures
        field_type(s, Some(c1), i).0 != field_type(s, Some(c2), i).0,
{
}

/// Distinct primitive types display differently: the display of a
/// primitive type names it.
pub proof fn lemma_display_primitives_distinct(t1: JTypeView, t2: JTypeView)
    requires
        is_primitive(t1),
        is_primitive(t2),
        display(t1) == display(t2),
    ensures
        t1 == t2,
{
    reveal_strlit("void");
    reveal_strlit("byte");
    reveal_strlit("char");
    reveal_strlit("double");
    reveal_strlit("float");
    reveal_strlit("int");
    reveal_strlit("long");
    reveal_strlit("short");
    reveal_strlit("boolean");
    assert("void"@.len() == 4);
    assert("byte"@.len() == 4);
    assert("char"@.len() == 4);
    assert("double"@.len() == 6);
    assert("float"@.len() == 5);
    assert("int"@.len() == 3);
    assert("long"@.len() == 4);
    assert("short"@.len() == 5);
    assert("boolean"@.len() == 7);
    assert("void"@[0] != "byte"@[0]);
    assert("void"@[0] != "char"@[0]);
    assert("void"@[0] != "long"@[0]);
    assert("byte"@[0] != "char"@[0]);
    assert("byte"@[0] != "long"@[0]);
    assert("char"@[0] != "long"@[0]);
    assert("float"@[0] != "short"@[0]);
}

/// A word lexes to a keyword token exactly when it is the word that spells
/// that keyword.
pub proof fn lemma_keyword_words(w: Seq<char>, t: Token)
    ensures
        keyword_token(w) == Some(t) <==> keyword_word(t) == Some(w),
{
    reveal_strlit("if");
    reveal_strlit("true");
    reveal_strlit("false");
    reveal_strlit("while");
    reveal_strlit("package");
    reveal_strlit("import");
    reveal_strlit("public");
    reveal_strlit("private");
    reveal_strlit("protected");
    reveal_strlit("class");
    reveal_strlit("interface");
    reveal_strlit("enum");
    reveal_strlit("void");
    reveal_strlit("throws");
    reveal_strlit("int");
    reveal_strlit("double");
    reveal_strlit("float");
    reveal_strlit("extends");
    reveal_strlit("implements");
    reveal_strlit("new");
    reveal_strlit("return");
    assert("if"@.len() == 2);
    assert("true"@.len() == 4);
    assert("false"@.len() == 5);
    assert("while"@.len() == 5);
    assert("package"@.len() == 7);
    assert("import"@.len() == 6);
    assert("public"@.len() == 6);
    assert("private"@.len() == 7);
    assert("protected"@.len() == 9);
    assert("class"@.len() == 5);
    assert("interface"@.len() == 9);
    assert("enum"@.len() == 4);
    assert("void"@.len() == 4);
    assert("throws"@.len() == 6);
    assert("int"@.len() == 3);
    assert("double"@.len() == 6);
    assert("float"@.len() == 5);
    assert("extends"@.len() == 7);
    assert("implements"@.len() == 10);
    assert("new"@.len() == 3);
    assert("return"@.len() == 6);
    assert("true"@[0] != "enum"@[0]);
    assert("true"@[0] != "void"@[0]);
    assert("false"@[0] != "while"@[0]);
    assert("false"@[0] != "class"@[0]);
    assert("false"@[1] != "float"@[1]);
    assert("while"@[0] != "class"@[0]);
    assert("while"@[0] != "float"@[0]);
    assert("package"@[1] != "private"@[1]);
    assert("package"@[0] != "extends"@[0]);
    assert("import"@[0] != "public"@[0]);
    assert("import"@[0] != "throws"@[0]);
    assert("import"@[0] != "double"@[0]);
    assert("import"@[0] != "return"@[0]);
    assert("public"@[0] != "throws"@[0]);
    assert("public"@[0] != "double"@[0]);
    assert("public"@[0] != "return"@[0]);
    assert("private"@[0] != "extends"@[0]);
    assert("protected"@[0] != "interface"@[0]);
    assert("class"@[0] != "float"@[0]);
    assert("enum"@[0] != "void"@[0]);
    assert("throws"@[0] != "double"@[0]);
    assert("throws"@[0] != "return"@[0]);
    assert("int"@[0] != "new"@[0]);
    assert("double"@[0] != "return"@[0]);
}

/// Two words that lex to the same keyword token are the same word.
pub proof fn lemma_keyword_token_injective(w1: Seq<char>, w2: Seq<char>)
    requires
        keyword_token(w1) is Some,
        keyword_token(w1) == keyword_token(w2),
    ensures
        w1 == w2,
{
    let t = keyword_token(w1)->0;
    lemma_keyword_words(w1, t);
    lemma_keyword_words(w2, t);
}

/// The text that each symbol token of the lexer stands for.
pub open spec fn symbol_text(t: Token) -> Option<Seq<char>> {
    match t {
        Token::LeftParen => Some(seq!['(']),
        Token::RightParen => Some(seq![')']),
        Token::LeftParenCurly => Some(seq!['{']),
        Token::RightParenCurly => Some(seq!['}']),
        Token::Plus => Some(seq!['+']),
        Token::Dash => Some(seq!['-']),
        Token::Star => Some(seq!['*']),
        Token::At => Some(seq!['@']),
        Token::Dot => Some(seq!['.']),
        Token::Comma => Some(seq![',']),
        Token::Semicolon => Some(seq![';']),
        Token::Slash => Some(seq!['/']),
        Token::BackSlash => Some(seq!['\\']),
        Token::SingleQuote => Some(seq!['\'']),
        Token::DoubleQuote => Some(seq!['"']),
        Token::Equal => Some(seq!['=']),
        Token::EqualDouble => Some(seq!['=', '=']),
        Token::ExclamationMark => Some(seq!['!']),
        Token::Ne => Some(seq!['!', '=']),
        Token::Lt => Some(seq!['<']),
        Token::Le => Some(seq!['<', '=']),
        Token::Gt => Some(seq!['>']),
        Token::Ge => Some(seq!['>', '=']),
        _ => None,
    }
}

/// A character that the lexer reads as a symbol on its own, whatever
/// follows it (`=`, `"`, `!`, `<` and `>` are read with what follows).
pub open spec fn stands_alone(c: char) -> bool {
    c != '=' && c != '"' && c != '!' && c != '<' && c != '>'
}

/// A character reads as a symbol token on its own exactly when that token
/// stands for that character.
pub proof fn lemma_symbol_tokens(c: char, t: Token)
    requires
        stands_alone(c),
    ensures
        punct_token(c) == Some(t) <==> symbol_text(t) == Some(seq![c]),
{
    if symbol_text(t) == Some(seq![c]) {
        assert(symbol_text(t)->0[0] == c);
    }
}

/// `!`, `<` and `>` read as the token that stands for them alone, or, with
/// `=` after them, as the token that stands for both; no other character
/// does.
pub proof fn lemma_compare_tokens(c: char)
    ensures
        compare_tokens(c) is Some <==> (c == '!' || c == '<' || c == '>'),
        compare_tokens(c) matches Some((alone, with_eq)) ==> symbol_text(alone) == Some(seq![c]) && symbol_text(
            with_eq,
        ) == Some(seq![c, '=']),
{
}

/// The node kinds by which tree-sitter-java writes a primitive type or
/// `void`, with the keyword written: `int`, `long`, `short`, `byte` and
/// `char` are integral types, `double` and `float` floating point types,
/// `boolean` the boolean type and `void` the void type.
pub open spec fn primitive_type_node(kind: Seq<char>, text: Seq<char>) -> bool {
    ||| kind == "integral_type"@ && (text == "int"@ || text == "long"@ || text == "short"@ || text == "byte"@
        || text == "char"@)
    ||| kind == "floating_point_type"@ && (text == "double"@ || text == "float"@)
    ||| kind == "boolean_type"@ && text == "boolean"@
    ||| kind == "void_type"@ && text == "void"@
}

/// A primitive type or `void` written in source reads as the type whose
/// display is the keyword written.
pub proof fn lemma_source_primitive_types(ns: Seq<NodeView>, b: Seq<u8>, c: int, tps: Seq<Seq<char>>)
    requires
        0 <= c < ns.len(),
        node_text(ns, b, c) matches Some(t) && primitive_type_node(ns[c].kind, t),
    ensures
        jtype_at(ns, b, c, tps) matches Ok(j) && (is_primitive(j) || j is Void) && Some(display(j)) == node_text(ns, b, c),
{
    reveal_strlit("integral_type");
    assert("integral_type"@.len() == 13);
    reveal_strlit("floating_point_type");
    assert("floating_point_type"@.len() == 19);
    reveal_strlit("boolean_type");
    assert("boolean_type"@.len() == 12);
    reveal_strlit("void_type");
    assert("void_type"@.len() == 9);
    reveal_strlit("type_identifier");
    assert("type_identifier"@.len() == 15);
    reveal_strlit("scoped_type_identifier");
    assert("scoped_type_identifier"@.len() == 22);
    reveal_strlit("wildcard");
    assert("wildcard"@.len() == 8);
    reveal_strlit("array_type");
    assert("array_type"@.len() == 10);
    reveal_strlit("generic_type");
    assert("generic_type"@.len() == 12);
    reveal_strlit("?");
    assert("?"@.len() == 1);
    assert("boolean_type"@[0] != "generic_type"@[0]);
    reveal_strlit("int");
    assert("int"@.len() == 3);
    reveal_strlit("long");
    assert("long"@.len() == 4);
    reveal_strlit("short");
    assert("short"@.len() == 5);
    reveal_strlit("byte");
    assert("byte"@.len() == 4);
    reveal_strlit("char");
    assert("char"@.len() == 4);
    reveal_strlit("double");
    assert("double"@.len() == 6);
    reveal_strlit("float");
    assert("float"@.len() == 5);
    reveal_strlit("boolean");
    assert("boolean"@.len() == 7);
    reveal_strlit("void");
    assert("void"@.len() == 4);
    assert("long"@[0] != "byte"@[0]);
    assert("long"@[0] != "char"@[0]);
    assert("long"@[0] != "void"@[0]);
    assert("short"@[0] != "float"@[0]);
    assert("byte"@[0] != "char"@[0]);
    assert("byte"@[0] != "void"@[0]);
    assert("char"@[0] != "void"@[0]);
}

/// The class that stands for a primitive type or `void` is named by the
/// type's display, its Java keyword.
pub proof fn lemma_builtin_names(j: JTypeView)
    requires
        is_primitive(j) || j is Void,
    ensures
        builtin_name(j) == Some(display(j)),
{
}

/// The modifier keyword token that declares each availability.
pub open spec fn availability_token(a: AstAvailability) -> Token {
    match a {
        AstAvailability::Public => Token::Public,
        AstAvailability::Private => Token::Private,
        AstAvailability::Protected => Token::Protected,
    }
}

/// A token gives an availability exactly when it is the modifier keyword
/// that declares that availability.
pub proof fn lemma_availability_tokens(t: TokenView, a: AstAvailability)
    ensures
        availability_of(t) == Some(a) <==> t == TokenView::Fixed(availability_token(a)),
{
}

} // verus!
