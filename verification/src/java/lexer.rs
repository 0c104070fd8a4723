//! A small lexer for the subset of Java that the outline parser reads.
//!
//! The behaviour is fixed by `spec_lex`, a left-to-right definition of how
//! each character (or run of characters) becomes a token, and `lex` is proved
//! to compute exactly that.
use vstd::prelude::*;

use crate::text::{chars_of, is_whitespace, is_ws_char, push_char, seg_eq};

verus! {

/// A token together with the line and column where the lexer saw it.
#[derive(Debug, PartialEq, Clone)]
pub struct PositionToken {
    pub token: Token,
    pub line: usize,
    pub col: usize,
}

#[derive(Debug, PartialEq, Clone)]
pub enum Token {
    Identifier(String),
    Number(i64),
    LeftParen,
    RightParen,
    Plus,
    Dash,
    Star,
    EOF,
    Dot,
    Semicolon,
    LeftParenCurly,
    RightParenCurly,
    Comma,
    If,
    While,
    Package,
    Import,
    Public,
    Private,
    Protected,
    Class,
    Interface,
    Enum,
    Void,
    Throws,
    Int,
    Double,
    Float,
    Slash,
    BackSlash,
    At,
    Le,
    Lt,
    Ge,
    Gt,
    Extends,
    Implements,
    True,
    False,
    EqualDouble,
    Equal,
    Ne,
    ExclamationMark,
    DoubleQuote,
    SingleQuote,
    New,
    Return,
}


impl Token {
    /// A copy of the token with the same view.
    pub fn copy(&self) -> (r: Token)
        ensures
            r@ == self@,
    {
        match self {
        Token::Identifier(s) => Token::Identifier(s.clone()),
        Token::Number(n) => Token::Number(*n),
        Token::LeftParen => Token::LeftParen,
        Token::RightParen => Token::RightParen,
        Token::Plus => Token::Plus,
        Token::Dash => Token::Dash,
        Token::Star => Token::Star,
        Token::EOF => Token::EOF,
        Token::Dot => Token::Dot,
        Token::Semicolon => Token::Semicolon,
        Token::LeftParenCurly => Token::LeftParenCurly,
        Token::RightParenCurly => Token::RightParenCurly,
        Token::Comma => Token::Comma,
        Token::If => Token::If,
        Token::While => Token::While,
        Token::Package => Token::Package,
        Token::Import => Token::Import,
        Token::Public => Token::Public,
        Token::Private => Token::Private,
        Token::Protected => Token::Protected,
        Token::Class => Token::Class,
        Token::Interface => Token::Interface,
        Token::Enum => Token::Enum,
        Token::Void => Token::Void,
        Token::Throws => Token::Throws,
        Token::Int => Token::Int,
        Token::Double => Token::Double,
        Token::Float => Token::Float,
        Token::Slash => Token::Slash,
        Token::BackSlash => Token::BackSlash,
        Token::At => Token::At,
        Token::Le => Token::Le,
        Token::Lt => Token::Lt,
        Token::Ge => Token::Ge,
        Token::Gt => Token::Gt,
        Token::Extends => Token::Extends,
        Token::Implements => Token::Implements,
        Token::True => Token::True,
        Token::False => Token::False,
        Token::EqualDouble => Token::EqualDouble,
        Token::Equal => Token::Equal,
        Token::Ne => Token::Ne,
        Token::ExclamationMark => Token::ExclamationMark,
        Token::DoubleQuote => Token::DoubleQuote,
        Token::SingleQuote => Token::SingleQuote,
        Token::New => Token::New,
        Token::Return => Token::Return,
        }
    }

    /// Whether two tokens are the same token.
    pub fn same(&self, other: &Token) -> (b: bool)
        ensures
            b == (self@ == other@),
    {
        match (self, other) {
        (Token::Identifier(a), Token::Identifier(b)) => *a == *b,
        (Token::Number(a), Token::Number(b)) => *a == *b,
        (Token::LeftParen, Token::LeftParen) => true,
        (Token::RightParen, Token::RightParen) => true,
        (Token::Plus, Token::Plus) => true,
        (Token::Dash, Token::Dash) => true,
        (Token::Star, Token::Star) => true,
        (Token::EOF, Token::EOF) => true,
        (Token::Dot, Token::Dot) => true,
        (Token::Semicolon, Token::Semicolon) => true,
        (Token::LeftParenCurly, Token::LeftParenCurly) => true,
        (Token::RightParenCurly, Token::RightParenCurly) => true,
        (Token::Comma, Token::Comma) => true,
        (Token::If, Token::If) => true,
        (Token::While, Token::While) => true,
        (Token::Package, Token::Package) => true,
        (Token::Import, Token::Import) => true,
        (Token::Public, Token::Public) => true,
        (Token::Private, Token::Private) => true,
        (Token::Protected, Token::Protected) => true,
        (Token::Class, Token::Class) => true,
        (Token::Interface, Token::Interface) => true,
        (Token::Enum, Token::Enum) => true,
        (Token::Void, Token::Void) => true,
        (Token::Throws, Token::Throws) => true,
        (Token::Int, Token::Int) => true,
        (Token::Double, Token::Double) => true,
        (Token::Float, Token::Float) => true,
        (Token::Slash, Token::Slash) => true,
        (Token::BackSlash, Token::BackSlash) => true,
        (Token::At, Token::At) => true,
        (Token::Le, Token::Le) => true,
        (Token::Lt, Token::Lt) => true,
        (Token::Ge, Token::Ge) => true,
        (Token::Gt, Token::Gt) => true,
        (Token::Extends, Token::Extends) => true,
        (Token::Implements, Token::Implements) => true,
        (Token::True, Token::True) => true,
        (Token::False, Token::False) => true,
        (Token::EqualDouble, Token::EqualDouble) => true,
        (Token::Equal, Token::Equal) => true,
        (Token::Ne, Token::Ne) => true,
        (Token::ExclamationMark, Token::ExclamationMark) => true,
        (Token::DoubleQuote, Token::DoubleQuote) => true,
        (Token::SingleQuote, Token::SingleQuote) => true,
        (Token::New, Token::New) => true,
        (Token::Return, Token::Return) => true,
        _ => {
            proof {
                if self@ == other@ {
                    assert(*self == *other);
                }
            }
            false
        },
        }
    }
}

#[derive(Debug, PartialEq)]
pub enum LexerError {
    UnknwonChar(char),
}

/// The mathematical value of a token: identifiers by their characters,
/// every other token as itself.
pub enum TokenView {
    Identifier(Seq<char>),
    Number(i64),
    Fixed(Token),
}

impl View for Token {
    type V = TokenView;

    open spec fn view(&self) -> TokenView {
        match self {
            Token::Identifier(s) => TokenView::Identifier(s@),
            Token::Number(n) => TokenView::Number(*n),
            _ => TokenView::Fixed(*self),
        }
    }
}

pub struct PositionTokenView {
    pub token: TokenView,
    pub line: nat,
    pub col: nat,
}

impl View for PositionToken {
    type V = PositionTokenView;

    open spec fn view(&self) -> PositionTokenView {
        PositionTokenView { token: self.token@, line: self.line as nat, col: self.col as nat }
    }
}

/// The views of a sequence of positioned tokens.
pub open spec fn views(ts: Seq<PositionToken>) -> Seq<PositionTokenView> {
    ts.map_values(|t: PositionToken| t@)
}

/// What lexing a text gives: the tokens, the first character that no
/// token starts with, or a number literal too large for `i64`.
pub enum LexOutcome {
    Tokens(Seq<PositionTokenView>),
    Unknown(char),
    Overflow,
}

pub open spec fn is_digit(c: char) -> bool {
    '0' <= c && c <= '9'
}

pub open spec fn is_ascii_letter(c: char) -> bool {
    ('A' <= c && c <= 'Z') || ('a' <= c && c <= 'z')
}

/// Characters that continue an identifier after its first letter.
pub open spec fn is_ident_continue(c: char) -> bool {
    is_ascii_letter(c) || c == '_'
}

/// The tokens that one character stands for on its own.
pub open spec fn punct_token(c: char) -> Option<Token> {
    if c == '(' {
        Some(Token::LeftParen)
    } else if c == ')' {
        Some(Token::RightParen)
    } else if c == '{' {
        Some(Token::LeftParenCurly)
    } else if c == '}' {
        Some(Token::RightParenCurly)
    } else if c == '+' {
        Some(Token::Plus)
    } else if c == '-' {
        Some(Token::Dash)
    } else if c == '*' {
        Some(Token::Star)
    } else if c == '@' {
        Some(Token::At)
    } else if c == '.' {
        Some(Token::Dot)
    } else if c == ',' {
        Some(Token::Comma)
    } else if c == ';' {
        Some(Token::Semicolon)
    } else if c == '/' {
        Some(Token::Slash)
    } else if c == '\\' {
        Some(Token::BackSlash)
    } else if c == '\'' {
        Some(Token::SingleQuote)
    } else {
        None
    }
}

/// `!`, `<` and `>`: the token alone and the token when `=` follows.
pub open spec fn compare_tokens(c: char) -> Option<(Token, Token)> {
    if c == '!' {
        Some((Token::ExclamationMark, Token::Ne))
    } else if c == '<' {
        Some((Token::Lt, Token::Le))
    } else if c == '>' {
        Some((Token::Gt, Token::Ge))
    } else {
        None
    }
}

/// The keyword that a word spells, if any.
pub open spec fn keyword_token(w: Seq<char>) -> Option<Token> {
    if w == "if"@ {
        Some(Token::If)
    } else if w == "true"@ {
        Some(Token::True)
    } else if w == "false"@ {
        Some(Token::False)
    } else if w == "while"@ {
        Some(Token::While)
    } else if w == "package"@ {
        Some(Token::Package)
    } else if w == "import"@ {
        Some(Token::Import)
    } else if w == "public"@ {
        Some(Token::Public)
    } else if w == "private"@ {
        Some(Token::Private)
    } else if w == "protected"@ {
        Some(Token::Protected)
    } else if w == "class"@ {
        Some(Token::Class)
    } else if w == "interface"@ {
        Some(Token::Interface)
    } else if w == "enum"@ {
        Some(Token::Enum)
    } else if w == "void"@ {
        Some(Token::Void)
    } else if w == "throws"@ {
        Some(Token::Throws)
    } else if w == "int"@ {
        Some(Token::Int)
    } else if w == "double"@ {
        Some(Token::Double)
    } else if w == "float"@ {
        Some(Token::Float)
    } else if w == "extends"@ {
        Some(Token::Extends)
    } else if w == "implements"@ {
        Some(Token::Implements)
    } else if w == "new"@ {
        Some(Token::New)
    } else if w == "return"@ {
        Some(Token::Return)
    } else {
        None
    }
}

/// A word is a keyword token or else an identifier.
pub open spec fn word_view(w: Seq<char>) -> TokenView {
    match keyword_token(w) {
        Some(t) => TokenView::Fixed(t),
        None => TokenView::Identifier(w),
    }
}

/// The end of the run of characters satisfying `is_digit` that starts at `j`.
pub open spec fn digit_run_end(s: Seq<char>, j: int) -> int
    decreases s.len() - j,
{
    if j < 0 || j >= s.len() || !is_digit(s[j]) {
        j
    } else {
        digit_run_end(s, j + 1)
    }
}

/// The end of the run of identifier characters that starts at `j`.
pub open spec fn ident_run_end(s: Seq<char>, j: int) -> int
    decreases s.len() - j,
{
    if j < 0 || j >= s.len() || !is_ident_continue(s[j]) {
        j
    } else {
        ident_run_end(s, j + 1)
    }
}

/// The value of a string of decimal digits.
pub open spec fn digits_value(d: Seq<char>) -> int
    decreases d.len(),
{
    if d.len() == 0 {
        0
    } else {
        digits_value(d.drop_last()) * 10 + (d.last() as int - '0' as int)
    }
}

pub open spec fn ptv(t: TokenView, line: int, col: int) -> PositionTokenView {
    PositionTokenView { token: t, line: line as nat, col: col as nat }
}

/// Puts one token in front of what the rest of the text gives.
pub open spec fn emit(t: PositionTokenView, rest: LexOutcome) -> LexOutcome {
    match rest {
        LexOutcome::Tokens(ts) => LexOutcome::Tokens(seq![t] + ts),
        other => other,
    }
}

/// Puts several tokens in front of what the rest of the text gives.
pub open spec fn prepend(ts: Seq<PositionTokenView>, rest: LexOutcome) -> LexOutcome {
    match rest {
        LexOutcome::Tokens(r) => LexOutcome::Tokens(ts + r),
        other => other,
    }
}

/// A run of digits ends after its start and inside the text.
pub proof fn lemma_digit_run_bounds(s: Seq<char>, j: int)
    requires
        0 <= j <= s.len(),
    ensures
        j <= digit_run_end(s, j) <= s.len(),
        j < s.len() && is_digit(s[j]) ==> digit_run_end(s, j) > j,
        forall|k: int| j <= k < digit_run_end(s, j) ==> is_digit(#[trigger] s[k]),
        digit_run_end(s, j) < s.len() ==> !is_digit(s[digit_run_end(s, j)]),
    decreases s.len() - j,
{
    if j < s.len() && is_digit(s[j]) {
        lemma_digit_run_bounds(s, j + 1);
    }
}

/// A run of identifier characters ends at or after its start and inside the text.
pub proof fn lemma_ident_run_bounds(s: Seq<char>, j: int)
    requires
        0 <= j <= s.len(),
    ensures
        j <= ident_run_end(s, j) <= s.len(),
        forall|k: int| j <= k < ident_run_end(s, j) ==> is_ident_continue(#[trigger] s[k]),
        ident_run_end(s, j) < s.len() ==> !is_ident_continue(s[ident_run_end(s, j)]),
    decreases s.len() - j,
{
    if j < s.len() && is_ident_continue(s[j]) {
        lemma_ident_run_bounds(s, j + 1);
    }
}

/// Lexing `s` from index `i`, where the lexer stands at `line` and `col`.
///
/// Lines advance on every `\n` and every `\r` (so `\r\n` counts twice) and
/// the column goes back to 0; other whitespace advances the column by one.
/// A `"` is emitted without advancing the column, and a lone `=` is emitted
/// at the column after it.
pub open spec fn lex_from(s: Seq<char>, i: int, line: int, col: int) -> LexOutcome
    decreases s.len() - i,
{
    if i < 0 || i >= s.len() {
        LexOutcome::Tokens(seq![ptv(TokenView::Fixed(Token::EOF), line, col)])
    } else {
        let ch = s[i];
        if ch == '\n' || ch == '\r' {
            lex_from(s, i + 1, line + 1, 0)
        } else if is_whitespace(ch) {
            lex_from(s, i + 1, line, col + 1)
        } else if punct_token(ch) is Some {
            emit(
                ptv(TokenView::Fixed(punct_token(ch)->0), line, col),
                lex_from(s, i + 1, line, col + 1),
            )
        } else if ch == '"' {
            emit(ptv(TokenView::Fixed(Token::DoubleQuote), line, col), lex_from(s, i + 1, line, col))
        } else if ch == '=' {
            if i + 1 < s.len() && s[i + 1] == '=' {
                emit(
                    ptv(TokenView::Fixed(Token::EqualDouble), line, col),
                    lex_from(s, i + 2, line, col + 2),
                )
            } else {
                emit(
                    ptv(TokenView::Fixed(Token::Equal), line, col + 1),
                    lex_from(s, i + 1, line, col + 1),
                )
            }
        } else if compare_tokens(ch) is Some {
            let (alone, with_eq) = compare_tokens(ch)->0;
            if i + 1 < s.len() && s[i + 1] == '=' {
                emit(ptv(TokenView::Fixed(with_eq), line, col), lex_from(s, i + 2, line, col + 2))
            } else {
                emit(ptv(TokenView::Fixed(alone), line, col), lex_from(s, i + 1, line, col + 1))
            }
        } else if is_digit(ch) {
            proof {
                lemma_digit_run_bounds(s, i);
            }
            let e = digit_run_end(s, i);
            let v = digits_value(s.subrange(i, e));
            if v > i64::MAX {
                LexOutcome::Overflow
            } else {
                emit(ptv(TokenView::Number(v as i64), line, col), lex_from(s, e, line, col + (e - i)))
            }
        } else if is_ascii_letter(ch) {
            proof {
                lemma_ident_run_bounds(s, i + 1);
            }
            let e = ident_run_end(s, i + 1);
            emit(ptv(word_view(s.subrange(i, e)), line, col), lex_from(s, e, line, col + (e - i)))
        } else {
            LexOutcome::Unknown(ch)
        }
    }
}

/// What `lex` gives for a text.
pub open spec fn spec_lex(s: Seq<char>) -> LexOutcome {
    lex_from(s, 0, 0, 0)
}

/// `digits_value` of a string of digits is never negative.
pub proof fn lemma_digits_value_nonneg(d: Seq<char>)
    requires
        forall|j: int| 0 <= j < d.len() ==> is_digit(#[trigger] d[j]),
    ensures
        digits_value(d) >= 0,
    decreases d.len(),
{
    if d.len() > 0 {
        lemma_digits_value_nonneg(d.drop_last());
    }
}

/// A prefix of a string of digits is worth no more than the whole string.
pub proof fn lemma_digits_value_prefix(d: Seq<char>, k: int)
    requires
        0 <= k <= d.len(),
        forall|j: int| 0 <= j < d.len() ==> is_digit(#[trigger] d[j]),
    ensures
        0 <= digits_value(d.take(k)) <= digits_value(d),
    decreases d.len() - k,
{
    if k == d.len() {
        assert(d.take(k) =~= d);
        lemma_digits_value_nonneg(d);
    } else {
        lemma_digits_value_prefix(d, k + 1);
        assert(d.take(k + 1).drop_last() =~= d.take(k));
        lemma_digits_value_nonneg(d.take(k));
    }
}

proof fn lemma_emit(ts: Seq<PositionToken>, t: PositionToken, r: LexOutcome)
    ensures
        prepend(views(ts), emit(t@, r)) == prepend(views(ts.push(t)), r),
{
    assert(views(ts.push(t)) =~= views(ts).push(t@));
    match r {
        LexOutcome::Tokens(rs) => {
            assert(views(ts) + (seq![t@] + rs) =~= views(ts).push(t@) + rs);
        },
        _ => {},
    }
}

fn is_digit_char(c: char) -> (b: bool)
    ensures
        b == is_digit(c),
{
    '0' <= c && c <= '9'
}

fn is_letter_char(c: char) -> (b: bool)
    ensures
        b == is_ascii_letter(c),
{
    ('A' <= c && c <= 'Z') || ('a' <= c && c <= 'z')
}

fn is_ident_char(c: char) -> (b: bool)
    ensures
        b == is_ident_continue(c),
{
    is_letter_char(c) || c == '_'
}

fn punct(c: char) -> (r: Option<Token>)
    ensures
        r == punct_token(c),
{
    if c == '(' {
        Some(Token::LeftParen)
    } else if c == ')' {
        Some(Token::RightParen)
    } else if c == '{' {
        Some(Token::LeftParenCurly)
    } else if c == '}' {
        Some(Token::RightParenCurly)
    } else if c == '+' {
        Some(Token::Plus)
    } else if c == '-' {
        Some(Token::Dash)
    } else if c == '*' {
        Some(Token::Star)
    } else if c == '@' {
        Some(Token::At)
    } else if c == '.' {
        Some(Token::Dot)
    } else if c == ',' {
        Some(Token::Comma)
    } else if c == ';' {
        Some(Token::Semicolon)
    } else if c == '/' {
        Some(Token::Slash)
    } else if c == '\\' {
        Some(Token::BackSlash)
    } else if c == '\'' {
        Some(Token::SingleQuote)
    } else {
        None
    }
}

fn compare_pair(c: char) -> (r: Option<(Token, Token)>)
    ensures
        r == compare_tokens(c),
{
    if c == '!' {
        Some((Token::ExclamationMark, Token::Ne))
    } else if c == '<' {
        Some((Token::Lt, Token::Le))
    } else if c == '>' {
        Some((Token::Gt, Token::Ge))
    } else {
        None
    }
}

/// The keyword spelled by `s[start..end]`, if any.
fn keyword(s: &Vec<char>, start: usize, end: usize) -> (r: Option<Token>)
    requires
        start <= end <= s.len(),
    ensures
        r == keyword_token(s@.subrange(start as int, end as int)),
{
    if seg_eq(s, start, end, "if") {
        Some(Token::If)
    } else if seg_eq(s, start, end, "true") {
        Some(Token::True)
    } else if seg_eq(s, start, end, "false") {
        Some(Token::False)
    } else if seg_eq(s, start, end, "while") {
        Some(Token::While)
    } else if seg_eq(s, start, end, "package") {
        Some(Token::Package)
    } else if seg_eq(s, start, end, "import") {
        Some(Token::Import)
    } else if seg_eq(s, start, end, "public") {
        Some(Token::Public)
    } else if seg_eq(s, start, end, "private") {
        Some(Token::Private)
    } else if seg_eq(s, start, end, "protected") {
        Some(Token::Protected)
    } else if seg_eq(s, start, end, "class") {
        Some(Token::Class)
    } else if seg_eq(s, start, end, "interface") {
        Some(Token::Interface)
    } else if seg_eq(s, start, end, "enum") {
        Some(Token::Enum)
    } else if seg_eq(s, start, end, "void") {
        Some(Token::Void)
    } else if seg_eq(s, start, end, "throws") {
        Some(Token::Throws)
    } else if seg_eq(s, start, end, "int") {
        Some(Token::Int)
    } else if seg_eq(s, start, end, "double") {
        Some(Token::Double)
    } else if seg_eq(s, start, end, "float") {
        Some(Token::Float)
    } else if seg_eq(s, start, end, "extends") {
        Some(Token::Extends)
    } else if seg_eq(s, start, end, "implements") {
        Some(Token::Implements)
    } else if seg_eq(s, start, end, "new") {
        Some(Token::New)
    } else if seg_eq(s, start, end, "return") {
        Some(Token::Return)
    } else {
        None
    }
}

/// Splits Java source text into positioned tokens, ending with `EOF`.
///
/// A number literal too large for `i64` is outside what this lexer takes.
pub fn lex(input: &str) -> (res: Result<Vec<PositionToken>, LexerError>)
    requires
        input@.len() < usize::MAX,
        !(spec_lex(input@) is Overflow),
    ensures
        match res {
            Ok(tokens) => {
                &&& spec_lex(input@) == LexOutcome::Tokens(views(tokens@))
                &&& tokens_well_formed(views(tokens@), input@.len())
            },
            Err(LexerError::UnknwonChar(c)) => spec_lex(input@) == LexOutcome::Unknown(c),
        },
{
    let s = chars_of(input);
    let n = s.len();
    let mut tokens: Vec<PositionToken> = Vec::new();
    let mut i: usize = 0;
    let mut line: usize = 0;
    let mut col: usize = 0;
    assert(views(tokens@) =~= Seq::<PositionTokenView>::empty());
    assert(prepend(views(tokens@), lex_from(s@, 0, 0, 0)) == lex_from(s@, 0, 0, 0)) by {
        match lex_from(s@, 0, 0, 0) {
            LexOutcome::Tokens(r) => {
                assert(Seq::<PositionTokenView>::empty() + r =~= r);
            },
            _ => {},
        }
    }
    while i < n
        invariant
            s@ == input@,
            n == s@.len(),
            n < usize::MAX,
            i <= n,
            line <= i,
            col <= i,
            spec_lex(s@) == prepend(views(tokens@), lex_from(s@, i as int, line as int, col as int)),
            !(spec_lex(s@) is Overflow),
        decreases n - i,
    {
        let ch = s[i];
        let ghost ts = tokens@;
        let ghost gi = i as int;
        let ghost gl = line as int;
        let ghost gc = col as int;
        if ch == '\n' || ch == '\r' {
            line += 1;
            col = 0;
            i += 1;
        } else if is_ws_char(ch) {
            col += 1;
            i += 1;
        } else if let Some(t) = punct(ch) {
            let pt = PositionToken { token: t, line, col };
            proof {
                lemma_emit(ts, pt, lex_from(s@, gi + 1, gl, gc + 1));
            }
            tokens.push(pt);
            col += 1;
            i += 1;
        } else if ch == '"' {
            let pt = PositionToken { token: Token::DoubleQuote, line, col };
            proof {
                lemma_emit(ts, pt, lex_from(s@, gi + 1, gl, gc));
            }
            tokens.push(pt);
            i += 1;
        } else if ch == '=' {
            if i + 1 < n && s[i + 1] == '=' {
                let pt = PositionToken { token: Token::EqualDouble, line, col };
                proof {
                    lemma_emit(ts, pt, lex_from(s@, gi + 2, gl, gc + 2));
                }
                tokens.push(pt);
                col += 2;
                i += 2;
            } else {
                col += 1;
                let pt = PositionToken { token: Token::Equal, line, col };
                proof {
                    lemma_emit(ts, pt, lex_from(s@, gi + 1, gl, gc + 1));
                }
                tokens.push(pt);
                i += 1;
            }
        } else if let Some((alone, with_eq)) = compare_pair(ch) {
            if i + 1 < n && s[i + 1] == '=' {
                let pt = PositionToken { token: with_eq, line, col };
                proof {
                    lemma_emit(ts, pt, lex_from(s@, gi + 2, gl, gc + 2));
                }
                tokens.push(pt);
                col += 2;
                i += 2;
            } else {
                let pt = PositionToken { token: alone, line, col };
                proof {
                    lemma_emit(ts, pt, lex_from(s@, gi + 1, gl, gc + 1));
                }
                tokens.push(pt);
                col += 1;
                i += 1;
            }
        } else if is_digit_char(ch) {
            let start = i;
            let ghost e = digit_run_end(s@, gi);
            proof {
                lemma_digit_run_bounds(s@, gi);
                lemma_digits_value_prefix(s@.subrange(gi, e), 0);
            }
            let ghost total = digits_value(s@.subrange(gi, e));
            assert(total <= i64::MAX);
            let mut v: i64 = 0;
            assert(s@.subrange(gi, gi) =~= Seq::<char>::empty());
            while i < n && is_digit_char(s[i])
                invariant
                    n == s@.len(),
                    start == gi,
                    gi <= i <= e <= n,
                    e == digit_run_end(s@, gi),
                    e < n ==> !is_digit(s@[e]),
                    forall|k: int| gi <= k < e ==> is_digit(#[trigger] s@[k]),
                    total == digits_value(s@.subrange(gi, e)),
                    total <= i64::MAX,
                    v == digits_value(s@.subrange(gi, i as int)),
                decreases n - i,
            {
                let d = s[i];
                let ghost seg = s@.subrange(gi, e);
                proof {
                    lemma_digits_value_prefix(seg, i + 1 - gi);
                    assert(seg.take(i + 1 - gi) =~= s@.subrange(gi, i + 1));
                    assert(s@.subrange(gi, i + 1).drop_last() =~= s@.subrange(gi, i as int));
                }
                v = v * 10 + ((d as u32) - ('0' as u32)) as i64;
                i += 1;
            }
            let pt = PositionToken { token: Token::Number(v), line, col };
            proof {
                lemma_emit(ts, pt, lex_from(s@, e, gl, gc + (e - gi)));
            }
            tokens.push(pt);
            col += i - start;
        } else if is_letter_char(ch) {
            let start = i;
            let ghost e = ident_run_end(s@, gi + 1);
            proof {
                lemma_ident_run_bounds(s@, gi + 1);
            }
            let mut word = String::new();
            push_char(&mut word, ch);
            i += 1;
            assert(word@ =~= s@.subrange(gi, gi + 1));
            while i < n && is_ident_char(s[i])
                invariant
                    n == s@.len(),
                    start == gi,
                    gi + 1 <= i <= e <= n,
                    e == ident_run_end(s@, gi + 1),
                    e < n ==> !is_ident_continue(s@[e]),
                    forall|k: int| gi + 1 <= k < e ==> is_ident_continue(#[trigger] s@[k]),
                    word@ == s@.subrange(gi, i as int),
                decreases n - i,
            {
                push_char(&mut word, s[i]);
                i += 1;
                assert(word@ =~= s@.subrange(gi, i as int));
            }
            let token = match keyword(&s, start, i) {
                Some(t) => t,
                None => Token::Identifier(word),
            };
            let pt = PositionToken { token, line, col };
            proof {
                lemma_emit(ts, pt, lex_from(s@, e, gl, gc + (e - gi)));
            }
            tokens.push(pt);
            col += i - start;
        } else {
            proof {
                assert(lex_from(s@, gi, gl, gc) == LexOutcome::Unknown(ch));
            }
            return Err(LexerError::UnknwonChar(ch));
        }
    }
    let eof = PositionToken { token: Token::EOF, line, col };
    proof {
        assert(views(tokens@.push(eof)) =~= views(tokens@) + seq![eof@]);
    }
    tokens.push(eof);
    proof {
        lemma_lex_well_formed(s@);
    }
    Ok(tokens)
}

/// Whether position `(l1, c1)` comes no later than `(l2, c2)`.
pub open spec fn pos_le(l1: nat, c1: nat, l2: nat, c2: nat) -> bool {
    l1 < l2 || (l1 == l2 && c1 <= c2)
}

/// The shape of a word that the lexer gives as an identifier.
pub open spec fn is_identifier_word(w: Seq<char>) -> bool {
    &&& w.len() >= 1
    &&& is_ascii_letter(w[0])
    &&& forall|k: int| 1 <= k < w.len() ==> is_ident_continue(#[trigger] w[k])
    &&& keyword_token(w) is None
}

/// What holds of every token sequence that lexing gives: it ends with the
/// only `EOF`, positions never go backwards, identifiers are words that are
/// not keywords, numbers are not negative, and there is at most one token
/// per character plus the `EOF`.
pub open spec fn tokens_well_formed(ts: Seq<PositionTokenView>, text_len: nat) -> bool {
    &&& ts.len() >= 1
    &&& ts.len() <= text_len + 1
    &&& ts.last().token == TokenView::Fixed(Token::EOF)
    &&& forall|k: int| 0 <= k < ts.len() - 1 ==> ts[k].token != TokenView::Fixed(Token::EOF)
    &&& forall|j: int, k: int|
        0 <= j < k < ts.len() ==> pos_le(ts[j].line, ts[j].col, ts[k].line, ts[k].col)
    &&& forall|k: int|
        0 <= k < ts.len() ==> (#[trigger] ts[k].token matches TokenView::Identifier(w)
            ==> is_identifier_word(w))
    &&& forall|k: int|
        0 <= k < ts.len() ==> (#[trigger] ts[k].token matches TokenView::Number(v) ==> v >= 0)
}

/// The lexer's results from index `i` on, with the positions from
/// `(line, col)` on.
proof fn lemma_lex_from_well_formed(s: Seq<char>, i: int, line: int, col: int)
    requires
        0 <= i <= s.len(),
        line >= 0,
        col >= 0,
    ensures
        lex_from(s, i, line, col) matches LexOutcome::Tokens(ts) ==> {
            &&& tokens_well_formed(ts, (s.len() - i) as nat)
            &&& forall|k: int|
                0 <= k < ts.len() ==> pos_le(line as nat, col as nat, #[trigger] ts[k].line, ts[k].col)
        },
    decreases s.len() - i,
{
    if i >= s.len() {
        return;
    }
    let ch = s[i];
    if ch == '\n' || ch == '\r' {
        lemma_lex_from_well_formed(s, i + 1, line + 1, 0);
    } else if is_whitespace(ch) {
        lemma_lex_from_well_formed(s, i + 1, line, col + 1);
    } else if punct_token(ch) is Some {
        lemma_lex_from_well_formed(s, i + 1, line, col + 1);
        lemma_emit_well_formed(s, i + 1, ptv(TokenView::Fixed(punct_token(ch)->0), line, col), line, col + 1);
    } else if ch == '"' {
        lemma_lex_from_well_formed(s, i + 1, line, col);
        lemma_emit_well_formed(s, i + 1, ptv(TokenView::Fixed(Token::DoubleQuote), line, col), line, col);
    } else if ch == '=' {
        if i + 1 < s.len() && s[i + 1] == '=' {
            lemma_lex_from_well_formed(s, i + 2, line, col + 2);
            lemma_emit_well_formed(s, i + 2, ptv(TokenView::Fixed(Token::EqualDouble), line, col), line, col + 2);
        } else {
            lemma_lex_from_well_formed(s, i + 1, line, col + 1);
            lemma_emit_well_formed(s, i + 1, ptv(TokenView::Fixed(Token::Equal), line, col + 1), line, col + 1);
        }
    } else if compare_tokens(ch) is Some {
        let (alone, with_eq) = compare_tokens(ch)->0;
        if i + 1 < s.len() && s[i + 1] == '=' {
            lemma_lex_from_well_formed(s, i + 2, line, col + 2);
            lemma_emit_well_formed(s, i + 2, ptv(TokenView::Fixed(with_eq), line, col), line, col + 2);
        } else {
            lemma_lex_from_well_formed(s, i + 1, line, col + 1);
            lemma_emit_well_formed(s, i + 1, ptv(TokenView::Fixed(alone), line, col), line, col + 1);
        }
    } else if is_digit(ch) {
        lemma_digit_run_bounds(s, i);
        let e = digit_run_end(s, i);
        let d = s.subrange(i, e);
        assert forall|j: int| 0 <= j < d.len() implies is_digit(#[trigger] d[j]) by {
            assert(d[j] == s[i + j]);
        }
        lemma_digits_value_nonneg(d);
        lemma_lex_from_well_formed(s, e, line, col + (e - i));
        if digits_value(d) <= i64::MAX {
            lemma_emit_well_formed(s, e, ptv(TokenView::Number(digits_value(d) as i64), line, col), line, col + (e - i));
        }
    } else if is_ascii_letter(ch) {
        lemma_ident_run_bounds(s, i + 1);
        let e = ident_run_end(s, i + 1);
        let w = s.subrange(i, e);
        assert forall|k: int| 1 <= k < w.len() implies is_ident_continue(#[trigger] w[k]) by {
            assert(w[k] == s[i + k]);
        }
        lemma_lex_from_well_formed(s, e, line, col + (e - i));
        lemma_emit_well_formed(s, e, ptv(word_view(w), line, col), line, col + (e - i));
    }
}

/// Emitting a token no later than where the rest starts keeps the token
/// sequence well formed.
proof fn lemma_emit_well_formed(s: Seq<char>, i2: int, t: PositionTokenView, line2: int, col2: int)
    requires
        0 <= i2 <= s.len(),
        line2 >= 0,
        col2 >= 0,
        pos_le(t.line, t.col, line2 as nat, col2 as nat),
        t.token != TokenView::Fixed(Token::EOF),
        t.token matches TokenView::Identifier(w) ==> is_identifier_word(w),
        t.token matches TokenView::Number(v) ==> v >= 0,
        lex_from(s, i2, line2, col2) matches LexOutcome::Tokens(ts) ==> {
            &&& tokens_well_formed(ts, (s.len() - i2) as nat)
            &&& forall|k: int|
                0 <= k < ts.len() ==> pos_le(line2 as nat, col2 as nat, #[trigger] ts[k].line, ts[k].col)
        },
    ensures
        emit(t, lex_from(s, i2, line2, col2)) matches LexOutcome::Tokens(ts) ==> {
            &&& tokens_well_formed(ts, (s.len() - i2 + 1) as nat)
            &&& forall|k: int|
                0 <= k < ts.len() ==> pos_le(t.line, t.col, #[trigger] ts[k].line, ts[k].col)
        },
{
    if let LexOutcome::Tokens(rest) = lex_from(s, i2, line2, col2) {
        let ts = seq![t] + rest;
        assert forall|k: int| 1 <= k < ts.len() implies #[trigger] ts[k] == rest[k - 1] by {}
        assert(ts[0] == t);
        assert forall|j: int, k: int| 0 <= j < k < ts.len() implies pos_le(ts[j].line, ts[j].col, ts[k].line, ts[k].col) by {
            if j == 0 {
                assert(pos_le(line2 as nat, col2 as nat, rest[k - 1].line, rest[k - 1].col));
            } else {
                assert(ts[j] == rest[j - 1]);
            }
        }
        assert forall|k: int| 0 <= k < ts.len() implies pos_le(t.line, t.col, #[trigger] ts[k].line, ts[k].col) by {
            if k > 0 {
                assert(pos_le(line2 as nat, col2 as nat, rest[k - 1].line, rest[k - 1].col));
            }
        }
        assert forall|k: int| 0 <= k < ts.len() - 1 implies ts[k].token != TokenView::Fixed(Token::EOF) by {
            if k > 0 {
                assert(ts[k] == rest[k - 1]);
            }
        }
        assert forall|k: int| 0 <= k < ts.len() implies (#[trigger] ts[k].token matches TokenView::Identifier(w)
            ==> is_identifier_word(w)) by {
            if k > 0 {
                assert(ts[k] == rest[k - 1]);
            }
        }
        assert forall|k: int| 0 <= k < ts.len() implies (#[trigger] ts[k].token matches TokenView::Number(v) ==> v >= 0) by {
            if k > 0 {
                assert(ts[k] == rest[k - 1]);
            }
        }
        assert(ts.last() == rest.last());
    }
}

/// Every token sequence that lexing gives is well formed (see
/// `tokens_well_formed`): it ends with its only `EOF`, token positions never
/// go backwards, identifiers are non-keyword words of ASCII letters and `_`
/// starting with a letter, numbers are not negative, and there is at most
/// one token per character of the text plus the `EOF`.
pub proof fn lemma_lex_well_formed(s: Seq<char>)
    ensures
        spec_lex(s) matches LexOutcome::Tokens(ts) ==> tokens_well_formed(ts, s.len()),
{
    lemma_lex_from_well_formed(s, 0, 0, 0);
}

/// A run of identifier characters that reaches the end of the text ends
/// there.
proof fn lemma_ident_run_to_end(s: Seq<char>, j: int)
    requires
        0 <= j <= s.len(),
        forall|k: int| j <= k < s.len() ==> is_ident_continue(#[trigger] s[k]),
    ensures
        ident_run_end(s, j) == s.len(),
    decreases s.len() - j,
{
    if j < s.len() {
        lemma_ident_run_to_end(s, j + 1);
    }
}

/// A text that is one word (an ASCII letter, then ASCII letters and `_`)
/// lexes to that word, as its keyword or else as an identifier, at line 0
/// and column 0, and the end of file after it.
pub proof fn lemma_lex_single_word(w: Seq<char>)
    requires
        w.len() >= 1,
        is_ascii_letter(w[0]),
        forall|k: int| 1 <= k < w.len() ==> is_ident_continue(#[trigger] w[k]),
    ensures
        spec_lex(w) == LexOutcome::Tokens(
            seq![ptv(word_view(w), 0, 0), ptv(TokenView::Fixed(Token::EOF), 0, w.len() as int)],
        ),
{
    lemma_ident_run_to_end(w, 1);
    let ch = w[0];
    assert(!(ch == '\n' || ch == '\r'));
    assert(!is_whitespace(ch));
    assert(punct_token(ch) is None);
    assert(compare_tokens(ch) is None);
    assert(!is_digit(ch));
    assert(w.subrange(0, w.len() as int) =~= w);
    assert(lex_from(w, w.len() as int, 0, w.len() as int) == LexOutcome::Tokens(
        seq![ptv(TokenView::Fixed(Token::EOF), 0, w.len() as int)],
    ));
    assert(seq![ptv(word_view(w), 0, 0)] + seq![ptv(TokenView::Fixed(Token::EOF), 0, w.len() as int)] =~= seq![
        ptv(word_view(w), 0, 0),
        ptv(TokenView::Fixed(Token::EOF), 0, w.len() as int),
    ]);
}

/// The values of the maximal runs of digits in `s` from index `i` on, in
/// order.
pub open spec fn digit_runs_from(s: Seq<char>, i: int) -> Seq<int>
    decreases s.len() - i,
{
    if i < 0 || i >= s.len() {
        seq![]
    } else if is_digit(s[i]) {
        proof {
            lemma_digit_run_bounds(s, i);
        }
        let e = digit_run_end(s, i);
        if e <= i {
            seq![]
        } else {
            seq![digits_value(s.subrange(i, e))] + digit_runs_from(s, e)
        }
    } else {
        digit_runs_from(s, i + 1)
    }
}

/// The values of the number tokens among `ts`, in order.
pub open spec fn numbers_of(ts: Seq<PositionTokenView>) -> Seq<int>
    decreases ts.len(),
{
    if ts.len() == 0 {
        seq![]
    } else {
        match ts[0].token {
            TokenView::Number(n) => seq![n as int] + numbers_of(ts.drop_first()),
            _ => numbers_of(ts.drop_first()),
        }
    }
}

proof fn lemma_numbers_of_emit(t: PositionTokenView, ts: Seq<PositionTokenView>)
    ensures
        numbers_of(seq![t] + ts) == match t.token {
            TokenView::Number(n) => seq![n as int] + numbers_of(ts),
            _ => numbers_of(ts),
        },
{
    assert((seq![t] + ts).drop_first() =~= ts);
}

/// Characters that are no digits add no run.
proof fn lemma_runs_skip(s: Seq<char>, i: int, e: int)
    requires
        0 <= i <= e <= s.len(),
        forall|k: int| i <= k < e ==> !is_digit(#[trigger] s[k]),
    ensures
        digit_runs_from(s, i) == digit_runs_from(s, e),
    decreases e - i,
{
    if i < e {
        lemma_runs_skip(s, i + 1, e);
    }
}

proof fn lemma_numbers_from(s: Seq<char>, i: int, line: int, col: int)
    requires
        0 <= i,
    ensures
        lex_from(s, i, line, col) matches LexOutcome::Tokens(ts) ==> numbers_of(ts) == digit_runs_from(s, i),
    decreases s.len() - i,
{
    if i < s.len() {
        let ch = s[i];
        if ch == '\n' || ch == '\r' {
            lemma_numbers_from(s, i + 1, line + 1, 0);
        } else if is_whitespace(ch) {
            lemma_numbers_from(s, i + 1, line, col + 1);
        } else if punct_token(ch) is Some {
            lemma_numbers_from(s, i + 1, line, col + 1);
            if let LexOutcome::Tokens(ts) = lex_from(s, i + 1, line, col + 1) {
                lemma_numbers_of_emit(ptv(TokenView::Fixed(punct_token(ch)->0), line, col), ts);
            }
        } else if ch == '"' {
            lemma_numbers_from(s, i + 1, line, col);
            if let LexOutcome::Tokens(ts) = lex_from(s, i + 1, line, col) {
                lemma_numbers_of_emit(ptv(TokenView::Fixed(Token::DoubleQuote), line, col), ts);
            }
        } else if ch == '=' || compare_tokens(ch) is Some {
            lemma_numbers_from(s, i + 1, line, col + 1);
            if i + 1 < s.len() && s[i + 1] == '=' {
                lemma_numbers_from(s, i + 2, line, col + 2);
                lemma_runs_skip(s, i, i + 2);
            }
            let pair = compare_tokens(ch)->0;
            let t1 = if ch == '=' {
                if i + 1 < s.len() && s[i + 1] == '=' {
                    ptv(TokenView::Fixed(Token::EqualDouble), line, col)
                } else {
                    ptv(TokenView::Fixed(Token::Equal), line, col + 1)
                }
            } else if i + 1 < s.len() && s[i + 1] == '=' {
                ptv(TokenView::Fixed(pair.1), line, col)
            } else {
                ptv(TokenView::Fixed(pair.0), line, col)
            };
            if let LexOutcome::Tokens(ts) = lex_from(s, i + 1, line, col + 1) {
                lemma_numbers_of_emit(t1, ts);
            }
            if let LexOutcome::Tokens(ts) = lex_from(s, i + 2, line, col + 2) {
                lemma_numbers_of_emit(t1, ts);
            }
        } else if is_digit(ch) {
            lemma_digit_run_bounds(s, i);
            let e = digit_run_end(s, i);
            let v = digits_value(s.subrange(i, e));
            lemma_numbers_from(s, e, line, col + (e - i));
            assert forall|j: int| 0 <= j < s.subrange(i, e).len() implies is_digit(#[trigger] s.subrange(i, e)[j]) by {
                assert(s.subrange(i, e)[j] == s[i + j]);
            }
            lemma_digits_value_nonneg(s.subrange(i, e));
            if v <= i64::MAX {
                if let LexOutcome::Tokens(ts) = lex_from(s, e, line, col + (e - i)) {
                    lemma_numbers_of_emit(ptv(TokenView::Number(v as i64), line, col), ts);
                }
            }
        } else if is_ascii_letter(ch) {
            lemma_ident_run_bounds(s, i + 1);
            let e = ident_run_end(s, i + 1);
            lemma_numbers_from(s, e, line, col + (e - i));
            lemma_runs_skip(s, i, e);
            if let LexOutcome::Tokens(ts) = lex_from(s, e, line, col + (e - i)) {
                lemma_numbers_of_emit(ptv(word_view(s.subrange(i, e)), line, col), ts);
            }
        }
    } else {
        let t = ptv(TokenView::Fixed(Token::EOF), line, col);
        lemma_numbers_of_emit(t, seq![]);
        assert(seq![t] + Seq::<PositionTokenView>::empty() =~= seq![t]);
    }
}

/// The number tokens that lexing gives are, in order, the values of the
/// maximal runs of digits in the text.
pub proof fn lemma_lex_numbers(s: Seq<char>)
    ensures
        spec_lex(s) matches LexOutcome::Tokens(ts) ==> numbers_of(ts) == digit_runs_from(s, 0),
{
    lemma_numbers_from(s, 0, 0, 0);
}

/// The tokens `ts` moved `d` lines down.
pub open spec fn shift_tokens(ts: Seq<PositionTokenView>, d: int) -> Seq<PositionTokenView> {
    ts.map_values(|t: PositionTokenView| PositionTokenView { line: (t.line + d) as nat, ..t })
}

pub open spec fn shift_outcome(o: LexOutcome, d: int) -> LexOutcome {
    match o {
        LexOutcome::Tokens(ts) => LexOutcome::Tokens(shift_tokens(ts, d)),
        other => other,
    }
}

/// The number of line breaks (`\n` and `\r`) in `s` from index `i` on.
pub open spec fn newlines_from(s: Seq<char>, i: int) -> int
    decreases s.len() - i,
{
    if i < 0 || i >= s.len() {
        0
    } else {
        (if s[i] == '\n' || s[i] == '\r' {
            1int
        } else {
            0int
        }) + newlines_from(s, i + 1)
    }
}

proof fn lemma_emit_shift(t: PositionTokenView, o: LexOutcome, d: int)
    requires
        d >= 0,
    ensures
        shift_outcome(emit(t, o), d) == emit(PositionTokenView { line: (t.line + d) as nat, ..t }, shift_outcome(o, d)),
{
    if let LexOutcome::Tokens(ts) = o {
        assert(shift_tokens(seq![t] + ts, d) =~= seq![PositionTokenView { line: (t.line + d) as nat, ..t }]
            + shift_tokens(ts, d));
    }
}

/// Runs in a text whose tail from `off` is `b` end where they end in `b`.
proof fn lemma_runs_in_suffix(s: Seq<char>, b: Seq<char>, off: int, j: int)
    requires
        0 <= off,
        s.len() == off + b.len(),
        forall|k: int| 0 <= k < b.len() ==> s[off + k] == #[trigger] b[k],
        0 <= j <= b.len(),
    ensures
        digit_run_end(s, off + j) == off + digit_run_end(b, j),
        ident_run_end(s, off + j) == off + ident_run_end(b, j),
    decreases b.len() - j,
{
    if j < b.len() {
        assert(s[off + j] == b[j]);
        lemma_runs_in_suffix(s, b, off, j + 1);
    }
}

/// Lexing a text from inside its tail `b` is lexing `b`, with the lines
/// moved down by `d`.
proof fn lemma_lex_suffix(s: Seq<char>, b: Seq<char>, off: int, j: int, line: int, col: int, d: int)
    requires
        0 <= off,
        s.len() == off + b.len(),
        forall|k: int| 0 <= k < b.len() ==> s[off + k] == #[trigger] b[k],
        0 <= j,
        line >= 0,
        d >= 0,
    ensures
        lex_from(s, off + j, line + d, col) == shift_outcome(lex_from(b, j, line, col), d),
    decreases b.len() - j,
{
    if j >= b.len() {
        assert(shift_tokens(seq![ptv(TokenView::Fixed(Token::EOF), line, col)], d) =~= seq![
            ptv(TokenView::Fixed(Token::EOF), line + d, col),
        ]);
    } else {
        let ch = b[j];
        assert(s[off + j] == ch);
        lemma_runs_in_suffix(s, b, off, j);
        if j + 1 < b.len() {
            assert(s[off + j + 1] == b[j + 1]);
        }
        if ch == '\n' || ch == '\r' {
            lemma_lex_suffix(s, b, off, j + 1, line + 1, 0, d);
        } else if is_whitespace(ch) {
            lemma_lex_suffix(s, b, off, j + 1, line, col + 1, d);
        } else if punct_token(ch) is Some {
            lemma_lex_suffix(s, b, off, j + 1, line, col + 1, d);
            lemma_emit_shift(ptv(TokenView::Fixed(punct_token(ch)->0), line, col), lex_from(b, j + 1, line, col + 1), d);
        } else if ch == '"' {
            lemma_lex_suffix(s, b, off, j + 1, line, col, d);
            lemma_emit_shift(ptv(TokenView::Fixed(Token::DoubleQuote), line, col), lex_from(b, j + 1, line, col), d);
        } else if ch == '=' {
            if j + 1 < b.len() && b[j + 1] == '=' {
                lemma_lex_suffix(s, b, off, j + 2, line, col + 2, d);
                lemma_emit_shift(ptv(TokenView::Fixed(Token::EqualDouble), line, col), lex_from(b, j + 2, line, col + 2), d);
            } else {
                lemma_lex_suffix(s, b, off, j + 1, line, col + 1, d);
                lemma_emit_shift(ptv(TokenView::Fixed(Token::Equal), line, col + 1), lex_from(b, j + 1, line, col + 1), d);
            }
        } else if compare_tokens(ch) is Some {
            let pair = compare_tokens(ch)->0;
            if j + 1 < b.len() && b[j + 1] == '=' {
                lemma_lex_suffix(s, b, off, j + 2, line, col + 2, d);
                lemma_emit_shift(ptv(TokenView::Fixed(pair.1), line, col), lex_from(b, j + 2, line, col + 2), d);
            } else {
                lemma_lex_suffix(s, b, off, j + 1, line, col + 1, d);
                lemma_emit_shift(ptv(TokenView::Fixed(pair.0), line, col), lex_from(b, j + 1, line, col + 1), d);
            }
        } else if is_digit(ch) {
            lemma_digit_run_bounds(b, j);
            let e = digit_run_end(b, j);
            assert(s.subrange(off + j, off + e) =~= b.subrange(j, e));
            lemma_lex_suffix(s, b, off, e, line, col + (e - j), d);
            let v = digits_value(b.subrange(j, e));
            if v <= i64::MAX {
                lemma_emit_shift(ptv(TokenView::Number(v as i64), line, col), lex_from(b, e, line, col + (e - j)), d);
            }
        } else if is_ascii_letter(ch) {
            lemma_ident_run_bounds(b, j + 1);
            lemma_runs_in_suffix(s, b, off, j + 1);
            let e = ident_run_end(b, j + 1);
            assert(s.subrange(off + j, off + e) =~= b.subrange(j, e));
            lemma_lex_suffix(s, b, off, e, line, col + (e - j), d);
            lemma_emit_shift(ptv(word_view(b.subrange(j, e)), line, col), lex_from(b, e, line, col + (e - j)), d);
        }
    }
}

proof fn lemma_newlines_skip(s: Seq<char>, i: int, e: int)
    requires
        0 <= i <= e <= s.len(),
        forall|k: int| i <= k < e ==> !(#[trigger] s[k] == '\n' || s[k] == '\r'),
    ensures
        newlines_from(s, i) == newlines_from(s, e),
    decreases e - i,
{
    if i < e {
        lemma_newlines_skip(s, i + 1, e);
    }
}

/// Lexing ends with a token on the line after every line break of the
/// text.
proof fn lemma_lex_last_line(s: Seq<char>, i: int, line: int, col: int)
    requires
        0 <= i,
        line >= 0,
    ensures
        lex_from(s, i, line, col) matches LexOutcome::Tokens(ts) ==> ts.len() >= 1 && ts.last().line == line
            + newlines_from(s, i),
    decreases s.len() - i,
{
    if i < s.len() {
        let ch = s[i];
        if ch == '\n' || ch == '\r' {
            lemma_lex_last_line(s, i + 1, line + 1, 0);
        } else if is_whitespace(ch) {
            lemma_lex_last_line(s, i + 1, line, col + 1);
        } else if punct_token(ch) is Some || ch == '"' || ch == '=' || compare_tokens(ch) is Some {
            lemma_lex_last_line(s, i + 1, line, col);
            lemma_lex_last_line(s, i + 1, line, col + 1);
            if i + 1 < s.len() && s[i + 1] == '=' {
                lemma_lex_last_line(s, i + 2, line, col + 2);
                lemma_newlines_skip(s, i, i + 2);
            }
        } else if is_digit(ch) {
            lemma_digit_run_bounds(s, i);
            let e = digit_run_end(s, i);
            lemma_lex_last_line(s, e, line, col + (e - i));
            lemma_newlines_skip(s, i, e);
        } else if is_ascii_letter(ch) {
            lemma_ident_run_bounds(s, i + 1);
            let e = ident_run_end(s, i + 1);
            lemma_lex_last_line(s, e, line, col + (e - i));
            lemma_newlines_skip(s, i, e);
        }
    }
}

/// Runs that start before a line break end where they end without it.
proof fn lemma_runs_in_prefix(s: Seq<char>, a: Seq<char>, i: int)
    requires
        s.len() > a.len(),
        forall|k: int| 0 <= k < a.len() ==> s[k] == #[trigger] a[k],
        s[a.len() as int] == '\n',
        0 <= i <= a.len(),
    ensures
        digit_run_end(s, i) == digit_run_end(a, i),
        ident_run_end(s, i) == ident_run_end(a, i),
    decreases a.len() - i,
{
    if i < a.len() {
        lemma_runs_in_prefix(s, a, i + 1);
    }
}

proof fn lemma_emit_join(t: PositionTokenView, ta: Seq<PositionTokenView>, tail: Seq<PositionTokenView>)
    requires
        ta.len() >= 1,
    ensures
        (seq![t] + ta).drop_last() + tail == seq![t] + (ta.drop_last() + tail),
        (seq![t] + ta).last() == ta.last(),
{
    assert((seq![t] + ta).drop_last() + tail =~= seq![t] + (ta.drop_last() + tail));
}

/// Lexing `a`, a line break and `b` from inside `a`: the tokens of `a`
/// without its end of file, then those of `b` moved below `a`'s last line.
proof fn lemma_lex_prefix(a: Seq<char>, b: Seq<char>, i: int, line: int, col: int)
    requires
        0 <= i <= a.len(),
        line >= 0,
    ensures
        ({
            let s = a + seq!['\n'] + b;
            lex_from(a, i, line, col) matches LexOutcome::Tokens(ta) ==> (lex_from(b, 0, 0, 0) matches LexOutcome::Tokens(tb)
                ==> lex_from(s, i, line, col) == LexOutcome::Tokens(
                ta.drop_last() + shift_tokens(tb, ta.last().line + 1int),
            ))
        }),
    decreases a.len() - i,
{
    let s = a + seq!['\n'] + b;
    assert(forall|k: int| 0 <= k < a.len() ==> s[k] == #[trigger] a[k]);
    assert(s[a.len() as int] == '\n');
    assert forall|k: int| 0 <= k < b.len() implies s[a.len() + 1 + k] == #[trigger] b[k] by {}
    if i == a.len() {
        lemma_lex_suffix(s, b, a.len() + 1int, 0, 0, 0, line + 1);
        assert(seq![ptv(TokenView::Fixed(Token::EOF), line, col)].drop_last() =~= Seq::<PositionTokenView>::empty());
        if let LexOutcome::Tokens(tb) = lex_from(b, 0, 0, 0) {
            assert(Seq::<PositionTokenView>::empty() + shift_tokens(tb, line + 1) =~= shift_tokens(tb, line + 1));
        }
    } else {
        let ch = a[i];
        assert(s[i] == ch);
        lemma_runs_in_prefix(s, a, i);
        if i + 1 < a.len() {
            assert(s[i + 1] == a[i + 1]);
        }
        if ch == '\n' || ch == '\r' {
            lemma_lex_prefix(a, b, i + 1, line + 1, 0);
        } else if is_whitespace(ch) {
            lemma_lex_prefix(a, b, i + 1, line, col + 1);
        } else {
            let pair = compare_tokens(ch)->0;
            let two = i + 1 < a.len() && a[i + 1] == '=';
            let (t, next, ncol) = if punct_token(ch) is Some {
                (ptv(TokenView::Fixed(punct_token(ch)->0), line, col), i + 1, col + 1)
            } else if ch == '"' {
                (ptv(TokenView::Fixed(Token::DoubleQuote), line, col), i + 1, col)
            } else if ch == '=' {
                if two {
                    (ptv(TokenView::Fixed(Token::EqualDouble), line, col), i + 2, col + 2)
                } else {
                    (ptv(TokenView::Fixed(Token::Equal), line, col + 1), i + 1, col + 1)
                }
            } else if compare_tokens(ch) is Some {
                if two {
                    (ptv(TokenView::Fixed(pair.1), line, col), i + 2, col + 2)
                } else {
                    (ptv(TokenView::Fixed(pair.0), line, col), i + 1, col + 1)
                }
            } else if is_digit(ch) {
                lemma_digit_run_bounds(a, i);
                let e = digit_run_end(a, i);
                assert(s.subrange(i, e) =~= a.subrange(i, e));
                let v = digits_value(a.subrange(i, e));
                (ptv(TokenView::Number(v as i64), line, col), e, col + (e - i))
            } else {
                lemma_ident_run_bounds(a, i + 1);
                lemma_runs_in_prefix(s, a, i + 1);
                let e = ident_run_end(a, i + 1);
                assert(s.subrange(i, e) =~= a.subrange(i, e));
                (ptv(word_view(a.subrange(i, e)), line, col), e, col + (e - i))
            };
            if punct_token(ch) is Some || ch == '"' || ch == '=' || compare_tokens(ch) is Some || is_digit(ch)
                || is_ascii_letter(ch) {
                lemma_lex_prefix(a, b, next, line, ncol);
                lemma_lex_last_line(a, next, line, ncol);
                if let LexOutcome::Tokens(ta) = lex_from(a, next, line, ncol) {
                    if let LexOutcome::Tokens(tb) = lex_from(b, 0, 0, 0) {
                        lemma_emit_join(t, ta, shift_tokens(tb, ta.last().line + 1int));
                    }
                }
            }
        }
    }
}

/// Lexing two texts joined by a line break gives the tokens of the first
/// without its end of file, then those of the second moved down below the
/// first: by one line more than the line breaks of the first.
pub proof fn lemma_lex_concat(a: Seq<char>, b: Seq<char>)
    ensures
        spec_lex(a) matches LexOutcome::Tokens(va) ==> (spec_lex(b) matches LexOutcome::Tokens(vb) ==> spec_lex(
            a + seq!['\n'] + b,
        ) == LexOutcome::Tokens(va.drop_last() + shift_tokens(vb, newlines_from(a, 0) + 1))),
{
    lemma_lex_prefix(a, b, 0, 0, 0);
    lemma_lex_last_line(a, 0, 0, 0);
}

/// Where each token starts, as indices of the text: in order, each on the
/// line after every line break before it.
pub open spec fn starts_fit(s: Seq<char>, ts: Seq<PositionTokenView>, starts: Seq<int>, i: int, line: int) -> bool {
    &&& starts.len() == ts.len()
    &&& forall|k: int| 0 <= k < starts.len() ==> i <= #[trigger] starts[k] <= s.len()
    &&& forall|k: int, j: int| 0 <= k < j < starts.len() ==> #[trigger] starts[k] < #[trigger] starts[j]
    &&& forall|k: int|
        0 <= k < starts.len() ==> #[trigger] ts[k].line == line + newlines_from(s, i) - newlines_from(s, starts[k])
}

proof fn lemma_lex_starts(s: Seq<char>, i: int, line: int, col: int) -> (starts: Seq<int>)
    requires
        0 <= i <= s.len(),
        line >= 0,
    ensures
        lex_from(s, i, line, col) matches LexOutcome::Tokens(ts) ==> starts_fit(s, ts, starts, i, line)
            && starts.len() >= 1 && starts.last() == s.len(),
    decreases s.len() - i,
{
    lemma_lex_last_line(s, i, line, col);
    if i >= s.len() {
        seq![s.len() as int]
    } else {
        let ch = s[i];
        if ch == '\n' || ch == '\r' {
            let r = lemma_lex_starts(s, i + 1, line + 1, 0);
            r
        } else if is_whitespace(ch) {
            lemma_lex_starts(s, i + 1, line, col + 1)
        } else if punct_token(ch) is Some || ch == '"' || ch == '=' || compare_tokens(ch) is Some || is_digit(ch)
            || is_ascii_letter(ch) {
            let two = i + 1 < s.len() && s[i + 1] == '=';
            let next = if punct_token(ch) is Some || ch == '"' {
                i + 1
            } else if ch == '=' || compare_tokens(ch) is Some {
                if two {
                    i + 2
                } else {
                    i + 1
                }
            } else if is_digit(ch) {
                lemma_digit_run_bounds(s, i);
                digit_run_end(s, i)
            } else {
                lemma_ident_run_bounds(s, i + 1);
                ident_run_end(s, i + 1)
            };
            let ncol = if punct_token(ch) is Some {
                col + 1
            } else if ch == '"' {
                col
            } else if ch == '=' || compare_tokens(ch) is Some {
                if two {
                    col + 2
                } else {
                    col + 1
                }
            } else {
                col + (next - i)
            };
            let r = lemma_lex_starts(s, next, line, ncol);
            lemma_lex_last_line(s, next, line, ncol);
            lemma_newlines_skip(s, i, next);
            lemma_newlines_skip(s, i, i + 1);
            let out = seq![i] + r;
            if let LexOutcome::Tokens(ts) = lex_from(s, i, line, col) {
                if let LexOutcome::Tokens(rest) = lex_from(s, next, line, ncol) {
                    assert(ts == seq![ts[0]] + rest);
                    assert(out.last() == r.last());
                    assert forall|k: int| 1 <= k < out.len() implies #[trigger] ts[k].line == line + newlines_from(s, i)
                        - newlines_from(s, out[k]) by {
                        assert(ts[k] == rest[k - 1]);
                        assert(out[k] == r[k - 1]);
                    }
                    assert forall|k: int, j: int| 0 <= k < j < out.len() implies #[trigger] out[k] < #[trigger] out[j] by {
                        if k > 0 {
                            assert(out[k] == r[k - 1] && out[j] == r[j - 1]);
                        } else {
                            assert(out[j] == r[j - 1]);
                        }
                    }
                    assert forall|k: int| 0 <= k < out.len() implies i <= #[trigger] out[k] <= s.len() by {
                        if k > 0 {
                            assert(out[k] == r[k - 1]);
                        }
                    }
                }
            }
            out
        } else {
            seq![]
        }
    }
}

/// Every token that lexing gives stands on the line after every line break
/// (`\n` or `\r`; `\r\n` counts twice) before the character it starts at;
/// the tokens start at increasing places, and the end of file at the end
/// of the text.
pub proof fn lemma_lex_lines(s: Seq<char>)
    ensures
        spec_lex(s) matches LexOutcome::Tokens(ts) ==> exists|starts: Seq<int>|
            #[trigger] starts_fit(s, ts, starts, 0, 0) && starts.last() == s.len(),
{
    let starts = lemma_lex_starts(s, 0, 0, 0);
    if let LexOutcome::Tokens(ts) = spec_lex(s) {
        assert(starts_fit(s, ts, starts, 0, 0));
    }
}

/// Walking back from `p` over ASCII letters and `_`, a letter comes.
pub open spec fn run_has_letter(s: Seq<char>, p: int) -> bool
    decreases p + 1,
{
    if p < 0 || p >= s.len() || !is_ident_continue(s[p]) {
        false
    } else if is_ascii_letter(s[p]) {
        true
    } else {
        run_has_letter(s, p - 1)
    }
}

/// The characters that lexing takes: whitespace, ASCII letters and digits,
/// the punctuation and operator characters, and a `_` that continues a word
/// begun by a letter.
pub open spec fn accepted_at(s: Seq<char>, p: int) -> bool {
    let c = s[p];
    ||| is_whitespace(c) || c == '\n' || c == '\r'
    ||| is_ascii_letter(c) || is_digit(c)
    ||| punct_token(c) is Some || c == '"' || c == '=' || compare_tokens(c) is Some
    ||| c == '_' && run_has_letter(s, p)
}

/// The first character from index `i` on that lexing does not take.
pub open spec fn first_refused_from(s: Seq<char>, i: int) -> Option<int>
    decreases s.len() - i,
{
    if i < 0 || i >= s.len() {
        None
    } else if !accepted_at(s, i) {
        Some(i)
    } else {
        first_refused_from(s, i + 1)
    }
}

/// Every run of digits from `i` on has a value that fits in an `i64`.
pub open spec fn runs_fit(s: Seq<char>, i: int) -> bool {
    forall|k: int| 0 <= k < digit_runs_from(s, i).len() ==> #[trigger] digit_runs_from(s, i)[k] <= i64::MAX
}

proof fn lemma_refused_skip(s: Seq<char>, i: int, e: int)
    requires
        0 <= i <= e <= s.len(),
        forall|k: int| i <= k < e ==> accepted_at(s, k),
    ensures
        first_refused_from(s, i) == first_refused_from(s, e),
    decreases e - i,
{
    if i < e {
        lemma_refused_skip(s, i + 1, e);
    }
}

proof fn lemma_word_accepted(s: Seq<char>, i: int, k: int)
    requires
        0 <= i <= k < s.len(),
        is_ascii_letter(s[i]),
        forall|j: int| i < j <= k ==> is_ident_continue(#[trigger] s[j]),
    ensures
        run_has_letter(s, k),
    decreases k - i,
{
    if k > i {
        lemma_word_accepted(s, i, k - 1);
    }
}

proof fn lemma_refused_from(s: Seq<char>, i: int, line: int, col: int)
    requires
        0 <= i <= s.len(),
        runs_fit(s, i),
        i == 0 || i == s.len() || !(is_ident_continue(s[i]) && run_has_letter(s, i - 1)),
    ensures
        match first_refused_from(s, i) {
            Some(p) => lex_from(s, i, line, col) == LexOutcome::Unknown(s[p]),
            None => lex_from(s, i, line, col) is Tokens,
        },
    decreases s.len() - i,
{
    if i < s.len() {
        let ch = s[i];
        let two = i + 1 < s.len() && s[i + 1] == '=';
        if ch == '\n' || ch == '\r' || is_whitespace(ch) || punct_token(ch) is Some || ch == '"' || ch == '=' || compare_tokens(ch) is Some {
            let next = if (ch == '=' || compare_tokens(ch) is Some) && two {
                i + 2
            } else {
                i + 1
            };
            lemma_runs_skip(s, i, next);
            lemma_refused_skip(s, i, next);
            assert(runs_fit(s, next));
            lemma_refused_from(s, next, line, col);
            lemma_refused_from(s, next, line + 1, 0);
            lemma_refused_from(s, next, line, col + 1);
            lemma_refused_from(s, next, line, col + 2);
        } else if is_digit(ch) {
            lemma_digit_run_bounds(s, i);
            let e = digit_run_end(s, i);
            assert(digit_runs_from(s, i)[0] == digits_value(s.subrange(i, e)));
            assert forall|k: int| 0 <= k < digit_runs_from(s, e).len() implies #[trigger] digit_runs_from(s, e)[k]
                <= i64::MAX by {
                assert(digit_runs_from(s, e)[k] == digit_runs_from(s, i)[k + 1]);
            }
            lemma_refused_skip(s, i, e);
            lemma_refused_from(s, e, line, col + (e - i));
        } else if is_ascii_letter(ch) {
            lemma_ident_run_bounds(s, i + 1);
            let e = ident_run_end(s, i + 1);
            assert forall|k: int| i <= k < e implies accepted_at(s, k) by {
                if k > i {
                    lemma_word_accepted(s, i, k);
                }
            }
            lemma_refused_skip(s, i, e);
            lemma_runs_skip(s, i, e);
            lemma_refused_from(s, e, line, col + (e - i));
        } else {
            if ch == '_' {
                assert(run_has_letter(s, i) == run_has_letter(s, i - 1));
                assert(!run_has_letter(s, -1));
            }
            assert(!accepted_at(s, i));
        }
    }
}

/// Where no number is too large, lexing refuses exactly the texts with a
/// character that it does not take (see `accepted_at`), naming the first
/// such character; every other text gives tokens.
pub proof fn lemma_lex_refuses(s: Seq<char>)
    requires
        runs_fit(s, 0),
    ensures
        match first_refused_from(s, 0) {
            Some(p) => spec_lex(s) == LexOutcome::Unknown(s[p]),
            None => spec_lex(s) is Tokens,
        },
{
    lemma_refused_from(s, 0, 0, 0);
}

} // verus!
