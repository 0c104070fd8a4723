//! An outline parser over the lexer's tokens: the package, the imports and
//! the kind and availability of the first declared type.
use vstd::prelude::*;

use crate::java::error::{
    assert_token, expected_error, invalid_availability, spec_assert_token, AstError,
    AstErrorView, ExpectedToken, InvalidToken,
};
use crate::java::lexer::{views, PositionToken, PositionTokenView, Token, TokenView};
use crate::text::push_char;

verus! {

#[derive(Debug, PartialEq)]
pub struct AstFile {
    pub package: String,
    pub imports: Vec<String>,
    pub thing: AstThing,
}

#[derive(Debug, PartialEq)]
pub enum AstAvailability {
    Public,
    Private,
    Protected,
}

#[derive(Debug, PartialEq)]
pub struct AstClass {
    pub avaliability: AstAvailability,
}

#[derive(Debug, PartialEq)]
pub struct AstInterface {
    pub avaliability: AstAvailability,
}

#[derive(Debug, PartialEq)]
pub enum AstThing {
    Class(AstClass),
    Interface(AstInterface),
    Empty,
}

pub struct AstFileView {
    pub package: Seq<char>,
    pub imports: Seq<Seq<char>>,
    pub thing: AstThing,
}

impl View for AstFile {
    type V = AstFileView;

    open spec fn view(&self) -> AstFileView {
        AstFileView {
            package: self.package@,
            imports: self.imports@.map_values(|s: String| s@),
            thing: self.thing,
        }
    }
}

pub open spec fn is_token(t: PositionTokenView, k: Token) -> bool {
    t.token == TokenView::Fixed(k)
}

/// The index of the first `;` at or after `j`, or the number of tokens.
pub open spec fn semicolon_from(tv: Seq<PositionTokenView>, j: int) -> int
    decreases tv.len() - j,
{
    if j < 0 || j >= tv.len() {
        tv.len() as int
    } else if is_token(tv[j], Token::Semicolon) {
        j
    } else {
        semicolon_from(tv, j + 1)
    }
}

pub proof fn lemma_semicolon_from(tv: Seq<PositionTokenView>, j: int)
    requires
        0 <= j <= tv.len(),
    ensures
        j <= semicolon_from(tv, j) <= tv.len(),
        forall|k: int| j <= k < semicolon_from(tv, j) ==> !is_token(#[trigger] tv[k], Token::Semicolon),
        semicolon_from(tv, j) < tv.len() ==> is_token(tv[semicolon_from(tv, j)], Token::Semicolon),
    decreases tv.len() - j,
{
    if j < tv.len() && !is_token(tv[j], Token::Semicolon) {
        lemma_semicolon_from(tv, j + 1);
    }
}

/// What one token adds to a dotted name: an identifier its text, `.` a dot,
/// `*` a star where stars count, anything else nothing.
pub open spec fn name_piece(t: TokenView, star: bool) -> Seq<char> {
    match t {
        TokenView::Identifier(w) => w,
        TokenView::Fixed(Token::Dot) => seq!['.'],
        TokenView::Fixed(Token::Star) => if star {
            seq!['*']
        } else {
            seq![]
        },
        _ => seq![],
    }
}

/// The dotted name that tokens `from..to` spell.
pub open spec fn dotted_name(tv: Seq<PositionTokenView>, from: int, to: int, star: bool) -> Seq<char>
    decreases to - from,
{
    if to <= from {
        seq![]
    } else {
        dotted_name(tv, from, to - 1, star) + name_piece(tv[to - 1].token, star)
    }
}

/// `package a.b;` at the start of the tokens: the name, and `pos` advanced by
/// one for each token read after `package` (the `;` included).
pub open spec fn spec_parse_package(tv: Seq<PositionTokenView>, pos: int) -> Result<(Seq<char>, int), AstErrorView> {
    match spec_assert_token(tv, 0, Token::Package) {
        Err(e) => Err(e),
        Ok(_) => {
            let e = semicolon_from(tv, 1);
            let read = if e < tv.len() {
                e
            } else {
                tv.len() - 1
            };
            Ok((dotted_name(tv, 1, e, false), pos + read))
        },
    }
}

/// `import a.b.C;` at index `pos`: the name (with `*` kept) and the index
/// after the `;`, or the last index when no `;` follows.
pub open spec fn spec_parse_import(tv: Seq<PositionTokenView>, pos: int) -> Result<(Seq<char>, int), AstErrorView> {
    match spec_assert_token(tv, pos, Token::Import) {
        Err(e) => Err(e),
        Ok(_) => {
            let e = semicolon_from(tv, pos + 1);
            let next = if e < tv.len() {
                e + 1
            } else {
                tv.len() - 1
            };
            Ok((dotted_name(tv, pos + 1, e, true), next))
        },
    }
}

pub proof fn lemma_parse_import_advances(tv: Seq<PositionTokenView>, pos: int)
    requires
        pos >= 0,
    ensures
        spec_parse_import(tv, pos) matches Ok((_, q)) ==> pos <= q <= tv.len() && (q == pos
            <==> (pos == tv.len() - 1)),
{
    if 0 <= pos < tv.len() {
        lemma_semicolon_from(tv, pos + 1);
    }
}

/// The imports read one after another from index `p`, and the index where
/// reading stopped.
pub open spec fn spec_imports_from(tv: Seq<PositionTokenView>, p: int) -> (Seq<Seq<char>>, int)
    decreases tv.len() - p,
{
    if p < 0 {
        (seq![], p)
    } else {
        match spec_parse_import(tv, p) {
            Ok((name, q)) => {
                proof {
                    lemma_parse_import_advances(tv, p);
                }
                if p < q {
                    let (rest, r) = spec_imports_from(tv, q);
                    (seq![name] + rest, r)
                } else {
                    (seq![name], p)
                }
            },
            Err(_) => (seq![], p),
        }
    }
}

/// Whether reading imports from `p` comes to an `import` at the last index,
/// which reads the same import again and again without end.
pub open spec fn imports_diverge(tv: Seq<PositionTokenView>, p: int) -> bool
    decreases tv.len() - p,
{
    if p < 0 {
        false
    } else {
        match spec_parse_import(tv, p) {
            Ok((_, q)) => {
                proof {
                    lemma_parse_import_advances(tv, p);
                }
                if p < q {
                    imports_diverge(tv, q)
                } else {
                    true
                }
            },
            Err(_) => false,
        }
    }
}

pub proof fn lemma_imports_from_bound(tv: Seq<PositionTokenView>, p: int)
    requires
        p >= 0,
    ensures
        spec_imports_from(tv, p).1 == p || spec_imports_from(tv, p).1 <= tv.len(),
    decreases tv.len() - p,
{
    lemma_parse_import_advances(tv, p);
    if let Ok((_, q)) = spec_parse_import(tv, p) {
        if p < q {
            lemma_imports_from_bound(tv, q);
        }
    }
}

pub open spec fn availability_of(t: TokenView) -> Option<AstAvailability> {
    if t == TokenView::Fixed(Token::Public) {
        Some(AstAvailability::Public)
    } else if t == TokenView::Fixed(Token::Private) {
        Some(AstAvailability::Private)
    } else if t == TokenView::Fixed(Token::Protected) {
        Some(AstAvailability::Protected)
    } else {
        None
    }
}

/// `public class` or `private interface` and so on, at index `pos`.
pub open spec fn spec_parse_thing(tv: Seq<PositionTokenView>, pos: int) -> Result<(AstThing, int), AstErrorView> {
    if pos < 0 || pos >= tv.len() {
        Err(AstErrorView::UnexpectedEOF)
    } else {
        match availability_of(tv[pos].token) {
            None => Err(invalid_availability(tv[pos])),
            Some(a) => if pos + 1 >= tv.len() {
                Err(AstErrorView::UnexpectedEOF)
            } else if is_token(tv[pos + 1], Token::Class) {
                Ok((AstThing::Class(AstClass { avaliability: a }), pos + 1))
            } else if is_token(tv[pos + 1], Token::Interface) {
                Ok((AstThing::Interface(AstInterface { avaliability: a }), pos + 1))
            } else {
                Err(expected_error(tv[pos + 1], Token::Class))
            },
        }
    }
}

/// What `parse_file` gives for tokens and a start position.
pub open spec fn spec_parse_file(tv: Seq<PositionTokenView>, pos: int) -> Result<AstFileView, AstErrorView> {
    match spec_parse_package(tv, pos) {
        Err(e) => Err(e),
        Ok((package, p1)) => {
            let (imports, p2) = spec_imports_from(tv, p1 + 1);
            match spec_parse_thing(tv, p2) {
                Err(e) => Err(e),
                Ok((thing, _)) => Ok(AstFileView { package, imports, thing }),
            }
        },
    }
}

/// Whether `parse_file` comes to an end on these tokens.
pub open spec fn parse_file_terminates(tv: Seq<PositionTokenView>, pos: int) -> bool {
    spec_parse_package(tv, pos) matches Ok((_, p1)) ==> !imports_diverge(tv, p1 + 1)
}

fn append_piece(name: &mut String, t: &Token, star: bool)
    ensures
        final(name)@ == old(name)@ + name_piece(t@, star),
{
    match t {
        Token::Identifier(id) => {
            name.append(id.as_str());
        },
        Token::Dot => {
            push_char(name, '.');
            assert(final(name)@ =~= old(name)@ + seq!['.']);
        },
        Token::Star => {
            if star {
                push_char(name, '*');
                assert(final(name)@ =~= old(name)@ + seq!['*']);
            } else {
                assert(final(name)@ =~= old(name)@ + Seq::<char>::empty());
            }
        },
        _ => {
            assert(final(name)@ =~= old(name)@ + Seq::<char>::empty());
        },
    }
}

fn is_semicolon(t: &Token) -> (b: bool)
    ensures
        b == (t@ == TokenView::Fixed(Token::Semicolon)),
{
    match t {
        Token::Semicolon => true,
        _ => false,
    }
}

/// Reads `package a.b;` from the first token on; the position returned is
/// `pos` advanced by the tokens read after `package`.
fn parse_package(tokens: &[PositionToken], pos: usize) -> (r: Result<(String, usize), AstError>)
    requires
        pos + tokens.len() <= usize::MAX,
    ensures
        match r {
            Ok((name, p)) => spec_parse_package(views(tokens@), pos as int) == Ok::<(Seq<char>, int), AstErrorView>((name@, p as int)),
            Err(e) => spec_parse_package(views(tokens@), pos as int) == Err::<(Seq<char>, int), AstErrorView>(e@),
        },
{
    let ghost tv = views(tokens@);
    match assert_token(tokens, 0, Token::Package) {
        Err(e) => {
            return Err(e);
        },
        Ok(()) => {},
    }
    let n = tokens.len();
    let mut next_pos = pos;
    let mut name = String::new();
    let mut k: usize = 1;
    proof {
        lemma_semicolon_from(tv, 1);
    }
    assert(name@ =~= dotted_name(tv, 1, 1, false));
    while k < n && !is_semicolon(&tokens[k].token)
        invariant
            tv == views(tokens@),
            n == tokens.len(),
            pos + n <= usize::MAX,
            1 <= k <= semicolon_from(tv, 1) <= n,
            forall|j: int| 1 <= j < semicolon_from(tv, 1) ==> !is_token(#[trigger] tv[j], Token::Semicolon),
            semicolon_from(tv, 1) < n ==> is_token(tv[semicolon_from(tv, 1)], Token::Semicolon),
            next_pos == pos + (k - 1),
            name@ == dotted_name(tv, 1, k as int, false),
        decreases n - k,
    {
        next_pos += 1;
        append_piece(&mut name, &tokens[k].token, false);
        k += 1;
    }
    assert(k == semicolon_from(tv, 1)) by {
        if k < n {
            assert(tv[k as int] == tokens@[k as int]@);
        }
    }
    if k < n {
        next_pos += 1;
    }
    Ok((name, next_pos))
}

/// Reads `import a.b.C;` at index `pos`.
fn parse_import(tokens: &[PositionToken], pos: usize) -> (r: Result<(String, usize), AstError>)
    ensures
        match r {
            Ok((name, p)) => spec_parse_import(views(tokens@), pos as int) == Ok::<(Seq<char>, int), AstErrorView>((name@, p as int)),
            Err(e) => spec_parse_import(views(tokens@), pos as int) == Err::<(Seq<char>, int), AstErrorView>(e@),
        },
{
    let ghost tv = views(tokens@);
    match assert_token(tokens, pos, Token::Import) {
        Err(e) => {
            return Err(e);
        },
        Ok(()) => {},
    }
    let n = tokens.len();
    let mut p = pos;
    let mut name = String::new();
    let mut k: usize = pos + 1;
    proof {
        lemma_semicolon_from(tv, pos + 1);
    }
    assert(name@ =~= dotted_name(tv, pos + 1, pos + 1, true));
    while k < n && !is_semicolon(&tokens[k].token)
        invariant
            tv == views(tokens@),
            n == tokens.len(),
            pos < n,
            pos + 1 <= k <= semicolon_from(tv, pos + 1) <= n,
            forall|j: int| pos + 1 <= j < semicolon_from(tv, pos + 1) ==> !is_token(#[trigger] tv[j], Token::Semicolon),
            semicolon_from(tv, pos + 1) < n ==> is_token(tv[semicolon_from(tv, pos + 1)], Token::Semicolon),
            p == k - 1,
            name@ == dotted_name(tv, pos + 1, k as int, true),
        decreases n - k,
    {
        p += 1;
        append_piece(&mut name, &tokens[k].token, true);
        k += 1;
    }
    assert(k == semicolon_from(tv, pos + 1)) by {
        if k < n {
            assert(tv[k as int] == tokens@[k as int]@);
        }
    }
    if k < n {
        p += 2;
    }
    Ok((name, p))
}

/// Reads imports one after another, starting one past `pos`.
fn parse_imports(tokens: &[PositionToken], pos: usize) -> (r: (Vec<String>, usize))
    requires
        pos + 1 <= usize::MAX,
        !imports_diverge(views(tokens@), pos + 1),
    ensures
        spec_imports_from(views(tokens@), pos + 1) == (r.0@.map_values(|s: String| s@), r.1 as int),
{
    let ghost tv = views(tokens@);
    let mut next_pos = pos + 1;
    let mut imports: Vec<String> = Vec::new();
    assert(imports@.map_values(|s: String| s@) =~= Seq::<Seq<char>>::empty());
    assert(spec_imports_from(tv, pos + 1) == (imports@.map_values(|s: String| s@) + spec_imports_from(tv, next_pos as int).0, spec_imports_from(tv, next_pos as int).1));
    loop
        invariant
            tv == views(tokens@),
            !imports_diverge(tv, next_pos as int),
            spec_imports_from(tv, pos + 1) == (imports@.map_values(|s: String| s@) + spec_imports_from(tv, next_pos as int).0, spec_imports_from(tv, next_pos as int).1),
        ensures
            spec_imports_from(tv, pos + 1) == (imports@.map_values(|s: String| s@), next_pos as int),
        decreases tokens.len() - next_pos,
    {
        let ghost old_next = next_pos as int;
        match parse_import(tokens, next_pos) {
            Ok((import, new_pos)) => {
                proof {
                    lemma_parse_import_advances(tv, old_next);
                }
                let ghost old_imports = imports@.map_values(|s: String| s@);
                let ghost iv = import@;
                next_pos = new_pos;
                imports.push(import);
                proof {
                    assert(imports@.map_values(|s: String| s@) =~= old_imports.push(iv));
                    let rest = spec_imports_from(tv, next_pos as int);
                    assert(old_imports + (seq![iv] + rest.0) =~= old_imports.push(iv) + rest.0);
                }
            },
            Err(_) => {
                proof {
                    assert(imports@.map_values(|s: String| s@) + Seq::<Seq<char>>::empty() =~= imports@.map_values(|s: String| s@));
                }
                break;
            },
        }
    }
    (imports, next_pos)
}

fn parse_avaliability(token: Option<&PositionToken>) -> (r: Result<AstAvailability, AstError>)
    ensures
        match token {
            None => r == Err::<AstAvailability, AstError>(AstError::UnexpectedEOF),
            Some(t) => match availability_of(t.token@) {
                Some(a) => r == Ok::<AstAvailability, AstError>(a),
                None => r matches Err(e) && e@ == invalid_availability(t@),
            },
        },
{
    let Some(token) = token else {
        return Err(AstError::UnexpectedEOF);
    };
    match token.token {
        Token::Public => Ok(AstAvailability::Public),
        Token::Private => Ok(AstAvailability::Private),
        Token::Protected => Ok(AstAvailability::Protected),
        _ => Err(AstError::InvalidAvailability(InvalidToken::from(token))),
    }
}

/// Reads `public class` (or `interface`, and `private` or `protected`) at
/// index `pos`; the position returned is one past `pos`.
fn parse_thing(tokens: &[PositionToken], pos: usize) -> (r: Result<(AstThing, usize), AstError>)
    requires
        pos + 1 <= usize::MAX,
    ensures
        match r {
            Ok((thing, p)) => spec_parse_thing(views(tokens@), pos as int) == Ok::<(AstThing, int), AstErrorView>((thing, p as int)),
            Err(e) => spec_parse_thing(views(tokens@), pos as int) == Err::<(AstThing, int), AstErrorView>(e@),
        },
{
    let ghost tv = views(tokens@);
    let n = tokens.len();
    let first = if pos < n {
        Some(&tokens[pos])
    } else {
        None
    };
    let avaliability = match parse_avaliability(first) {
        Ok(a) => a,
        Err(e) => {
            return Err(e);
        },
    };
    if pos + 1 >= n {
        return Err(AstError::UnexpectedEOF);
    }
    let t = &tokens[pos + 1];
    match t.token {
        Token::Class => Ok((AstThing::Class(AstClass { avaliability }), pos + 1)),
        Token::Interface => Ok((AstThing::Interface(AstInterface { avaliability }), pos + 1)),
        _ => Err(AstError::ExpectedToken(ExpectedToken::from(t, Token::Class))),
    }
}

/// Reads the outline of a file: its package, its imports and its first type.
///
/// Tokens on which the import loop would read one `import` at the last index
/// again and again (it never stops there) are outside what this takes.
pub fn parse_file(tokens: &[PositionToken], pos: usize) -> (r: Result<AstFile, AstError>)
    requires
        pos + tokens.len() + 2 <= usize::MAX,
        parse_file_terminates(views(tokens@), pos as int),
    ensures
        match r {
            Ok(f) => spec_parse_file(views(tokens@), pos as int) == Ok::<AstFileView, AstErrorView>(f@),
            Err(e) => spec_parse_file(views(tokens@), pos as int) == Err::<AstFileView, AstErrorView>(e@),
        },
{
    let (package_name, package_end) = match parse_package(tokens, pos) {
        Ok(v) => v,
        Err(e) => {
            return Err(e);
        },
    };
    proof {
        lemma_imports_from_bound(views(tokens@), package_end + 1);
    }
    let (imports, imports_end) = parse_imports(tokens, package_end);
    let (thing, _pos) = match parse_thing(tokens, imports_end) {
        Ok(v) => v,
        Err(e) => {
            return Err(e);
        },
    };
    Ok(AstFile { package: package_name, imports, thing })
}

proof fn lemma_no_divergence_before_eof(tv: Seq<PositionTokenView>, p: int)
    requires
        p >= 0,
        tv.len() >= 1,
        is_token(tv.last(), Token::EOF),
    ensures
        !imports_diverge(tv, p),
    decreases tv.len() - p,
{
    lemma_parse_import_advances(tv, p);
    if let Ok((_, q)) = spec_parse_import(tv, p) {
        assert(p != tv.len() - 1);
        lemma_no_divergence_before_eof(tv, q);
    }
}

/// Tokens that end with `EOF`, as every result of `lex` does, can always be
/// handed to `parse_file`: reading their imports comes to an end.
pub proof fn lemma_parse_file_terminates_on_eof(tv: Seq<PositionTokenView>, pos: int)
    requires
        pos >= 0,
        tv.len() >= 1,
        tv.last().token == TokenView::Fixed(Token::EOF),
    ensures
        parse_file_terminates(tv, pos),
{
    if let Ok((_, p1)) = spec_parse_package(tv, pos) {
        lemma_semicolon_from(tv, 1);
        lemma_no_divergence_before_eof(tv, p1 + 1);
    }
}

/// Tokens that do not start with `package` are refused: no tokens at all
/// as an unexpected end of file, else as the first token found where
/// `package` was expected.
pub proof fn lemma_parse_file_needs_package(tv: Seq<PositionTokenView>, pos: int)
    requires
        tv.len() == 0 || tv[0].token != TokenView::Fixed(Token::Package),
    ensures
        tv.len() == 0 ==> spec_parse_file(tv, pos) == Err::<AstFileView, AstErrorView>(AstErrorView::UnexpectedEOF),
        tv.len() > 0 ==> spec_parse_file(tv, pos) == Err::<AstFileView, AstErrorView>(
            expected_error(tv[0], Token::Package),
        ),
{
}

/// An import declaration's tokens: `import`, a name without `;`, and `;`.
pub open spec fn import_block(b: Seq<PositionTokenView>) -> bool {
    &&& b.len() >= 2
    &&& is_token(b[0], Token::Import)
    &&& is_token(b.last(), Token::Semicolon)
    &&& forall|k: int| 1 <= k < b.len() - 1 ==> !is_token(#[trigger] b[k], Token::Semicolon)
}

/// Blocks of tokens one after another.
pub open spec fn flat(bs: Seq<Seq<PositionTokenView>>) -> Seq<PositionTokenView>
    decreases bs.len(),
{
    if bs.len() == 0 {
        seq![]
    } else {
        bs[0] + flat(bs.drop_first())
    }
}

/// The names that import blocks spell, a `*` kept.
pub open spec fn import_names(bs: Seq<Seq<PositionTokenView>>) -> Seq<Seq<char>>
    decreases bs.len(),
{
    if bs.len() == 0 {
        seq![]
    } else {
        seq![dotted_name(bs[0], 1, bs[0].len() - 1, true)] + import_names(bs.drop_first())
    }
}

proof fn lemma_semicolon_at(tv: Seq<PositionTokenView>, j: int, k: int)
    requires
        0 <= j <= k < tv.len(),
        is_token(tv[k], Token::Semicolon),
        forall|m: int| j <= m < k ==> !is_token(#[trigger] tv[m], Token::Semicolon),
    ensures
        semicolon_from(tv, j) == k,
    decreases k - j,
{
    if j < k {
        lemma_semicolon_at(tv, j + 1, k);
    }
}

/// The name that tokens spell depends only on those tokens: the same
/// tokens at another offset spell the same name.
pub proof fn lemma_dotted_shift(tv: Seq<PositionTokenView>, b: Seq<PositionTokenView>, off: int, f: int, t: int, star: bool)
    requires
        0 <= off,
        0 <= f <= t <= b.len(),
        off + b.len() <= tv.len(),
        forall|k: int| 0 <= k < b.len() ==> tv[off + k] == #[trigger] b[k],
    ensures
        dotted_name(tv, off + f, off + t, star) == dotted_name(b, f, t, star),
    decreases t - f,
{
    if f < t {
        lemma_dotted_shift(tv, b, off, f, t - 1, star);
        assert(tv[off + t - 1] == b[t - 1]);
    }
}

proof fn lemma_imports_blocks(tv: Seq<PositionTokenView>, p: int, bs: Seq<Seq<PositionTokenView>>)
    requires
        0 <= p,
        p + flat(bs).len() < tv.len(),
        forall|k: int| 0 <= k < flat(bs).len() ==> tv[p + k] == #[trigger] flat(bs)[k],
        forall|i: int| 0 <= i < bs.len() ==> import_block(#[trigger] bs[i]),
        !is_token(tv[p + flat(bs).len()], Token::Import),
    ensures
        spec_imports_from(tv, p) == (import_names(bs), p + flat(bs).len()),
    decreases bs.len(),
{
    if bs.len() == 0 {
        assert(spec_parse_import(tv, p) is Err);
    } else {
        let b = bs[0];
        let rest = bs.drop_first();
        assert(import_block(b));
        assert(flat(bs) == b + flat(rest));
        assert forall|k: int| 0 <= k < b.len() implies tv[p + k] == #[trigger] b[k] by {
            assert(flat(bs)[k] == b[k]);
        }
        assert forall|k: int| 0 <= k < flat(rest).len() implies tv[p + b.len() + k] == #[trigger] flat(rest)[k] by {
            assert(flat(bs)[b.len() + k] == flat(rest)[k]);
        }
        assert forall|i: int| 0 <= i < rest.len() implies import_block(#[trigger] rest[i]) by {
            assert(rest[i] == bs[i + 1]);
        }
        assert forall|m: int| p + 1 <= m < p + b.len() - 1 implies !is_token(#[trigger] tv[m], Token::Semicolon) by {
            assert(tv[m] == b[m - p]);
        }
        assert(tv[p + b.len() - 1] == b[b.len() - 1]);
        lemma_semicolon_at(tv, p + 1, p + b.len() - 1);
        lemma_dotted_shift(tv, b, p, 1, b.len() - 1, true);
        assert(tv[p] == b[0]);
        lemma_imports_blocks(tv, p + b.len(), rest);
        assert(spec_parse_import(tv, p) == Ok::<(Seq<char>, int), AstErrorView>(
            (dotted_name(b, 1, b.len() - 1, true), p + b.len()),
        ));
        assert(p + b.len() + flat(rest).len() == p + flat(bs).len());
    }
}

/// A file that starts `package P;`, then import declarations, then an
/// availability and `class` or `interface`, gives the package `P`, the
/// imported names in order, and a class or an interface of that
/// availability, whatever follows.
pub proof fn lemma_parse_file_header(
    pn: Seq<PositionTokenView>,
    bs: Seq<Seq<PositionTokenView>>,
    tail: Seq<PositionTokenView>,
    pkg: PositionTokenView,
    semi: PositionTokenView,
)
    requires
        is_token(pkg, Token::Package),
        is_token(semi, Token::Semicolon),
        forall|k: int| 0 <= k < pn.len() ==> !is_token(#[trigger] pn[k], Token::Semicolon),
        forall|i: int| 0 <= i < bs.len() ==> import_block(#[trigger] bs[i]),
        tail.len() >= 2,
        availability_of(tail[0].token) is Some,
        is_token(tail[1], Token::Class) || is_token(tail[1], Token::Interface),
    ensures
        spec_parse_file(seq![pkg] + pn + seq![semi] + flat(bs) + tail, 0) == Ok::<AstFileView, AstErrorView>(
            AstFileView {
                package: dotted_name(pn, 0, pn.len() as int, false),
                imports: import_names(bs),
                thing: if is_token(tail[1], Token::Class) {
                    AstThing::Class(AstClass { avaliability: availability_of(tail[0].token)->0 })
                } else {
                    AstThing::Interface(AstInterface { avaliability: availability_of(tail[0].token)->0 })
                },
            },
        ),
{
    let tv = seq![pkg] + pn + seq![semi] + flat(bs) + tail;
    let e: int = pn.len() + 1int;
    assert(tv[0] == pkg);
    assert forall|m: int| 1 <= m < e implies !is_token(#[trigger] tv[m], Token::Semicolon) by {
        assert(tv[m] == pn[m - 1]);
    }
    assert(tv[e] == semi);
    lemma_semicolon_at(tv, 1, e);
    assert forall|k: int| 0 <= k < pn.len() implies tv[1 + k] == #[trigger] pn[k] by {}
    lemma_dotted_shift(tv, pn, 1, 0, pn.len() as int, false);
    let p: int = e + 1;
    assert forall|k: int| 0 <= k < flat(bs).len() implies tv[p + k] == #[trigger] flat(bs)[k] by {}
    assert(tv[p + flat(bs).len()] == tail[0]);
    lemma_imports_blocks(tv, p, bs);
    assert(tv[p + flat(bs).len() + 1] == tail[1]);
}

} // verus!
