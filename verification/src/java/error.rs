//! Errors of the outline parser, the test for one expected token, and the
//! lines shown around an error.
use vstd::prelude::*;

use crate::java::lexer::{views, PositionToken, PositionTokenView, Token, TokenView};
use crate::text::{lines, text_lines};

verus! {

#[derive(Debug, PartialEq)]
pub enum AstError {
    ExpectedToken(ExpectedToken),
    InvalidAvailability(InvalidToken),
    UnexpectedEOF,
}

#[derive(Debug, PartialEq)]
pub struct ExpectedToken {
    pub expected: Token,
    pub found: Token,
    pub line: usize,
    pub col: usize,
}

#[derive(Debug, PartialEq)]
pub struct InvalidToken {
    pub found: Token,
    pub line: usize,
    pub col: usize,
}

/// The value of a parse error, with tokens taken by their views.
pub enum AstErrorView {
    ExpectedToken { expected: TokenView, found: TokenView, line: nat, col: nat },
    InvalidAvailability { found: TokenView, line: nat, col: nat },
    UnexpectedEOF,
}

impl View for AstError {
    type V = AstErrorView;

    open spec fn view(&self) -> AstErrorView {
        match self {
            AstError::ExpectedToken(e) => AstErrorView::ExpectedToken {
                expected: e.expected@,
                found: e.found@,
                line: e.line as nat,
                col: e.col as nat,
            },
            AstError::InvalidAvailability(e) => AstErrorView::InvalidAvailability {
                found: e.found@,
                line: e.line as nat,
                col: e.col as nat,
            },
            AstError::UnexpectedEOF => AstErrorView::UnexpectedEOF,
        }
    }
}

/// The error for finding token `found` where `expected` had to stand.
pub open spec fn expected_error(found: PositionTokenView, expected: Token) -> AstErrorView {
    AstErrorView::ExpectedToken {
        expected: expected@,
        found: found.token,
        line: found.line,
        col: found.col,
    }
}

/// The error for a token that is no availability keyword.
pub open spec fn invalid_availability(found: PositionTokenView) -> AstErrorView {
    AstErrorView::InvalidAvailability { found: found.token, line: found.line, col: found.col }
}

impl ExpectedToken {
    pub fn from(pos: &PositionToken, expected: Token) -> (r: Self)
        ensures
            r.expected == expected,
            r.found@ == pos.token@,
            r.line == pos.line,
            r.col == pos.col,
    {
        Self { expected, found: pos.token.copy(), line: pos.line, col: pos.col }
    }
}

impl InvalidToken {
    pub fn from(pos: &PositionToken) -> (r: Self)
        ensures
            r.found@ == pos.token@,
            r.line == pos.line,
            r.col == pos.col,
    {
        Self { found: pos.token.copy(), line: pos.line, col: pos.col }
    }
}

/// What checking for `expected` at index `pos` of `tokens` gives.
pub open spec fn spec_assert_token(tokens: Seq<PositionTokenView>, pos: int, expected: Token) -> Result<(), AstErrorView> {
    if pos < 0 || pos >= tokens.len() {
        Err(AstErrorView::UnexpectedEOF)
    } else if tokens[pos].token != expected@ {
        Err(expected_error(tokens[pos], expected))
    } else {
        Ok(())
    }
}

/// Checks that the token at index `pos` is `expected`; there being no such
/// token is an unexpected end of file.
pub fn assert_token(tokens: &[PositionToken], pos: usize, expected: Token) -> (r: Result<(), AstError>)
    ensures
        match r {
            Ok(()) => spec_assert_token(views(tokens@), pos as int, expected) == Ok::<(), AstErrorView>(()),
            Err(e) => spec_assert_token(views(tokens@), pos as int, expected) == Err::<(), AstErrorView>(e@),
        },
{
    if pos >= tokens.len() {
        return Err(AstError::UnexpectedEOF);
    }
    let t = &tokens[pos];
    if !t.token.same(&expected) {
        let e = ExpectedToken::from(t, expected);
        return Err(AstError::ExpectedToken(e));
    }
    Ok(())
}


/// The lines shown around an error on line `line` (counted from one) of
/// `content`, each with its index among the lines: the line before, the
/// line of the error and the line after. Where one of them is missing
/// there is nothing to show.
pub open spec fn spec_error_lines(content: Seq<char>, line: int) -> Option<Seq<(int, Seq<char>)>> {
    let ls = lines(content);
    if 1 <= line && line + 1 < ls.len() {
        Some(seq![(line - 1, ls[line - 1]), (line, ls[line]), (line + 1, ls[line + 1])])
    } else {
        None
    }
}

/// The lines to show around an error (see `spec_error_lines`).
pub fn error_lines(content: &str, line: usize) -> (r: Option<Vec<(usize, String)>>)
    ensures
        match spec_error_lines(content@, line as int) {
            Some(ls) => r matches Some(v) && v@.len() == 3 && forall|k: int|
                0 <= k < 3 ==> (#[trigger] v@[k]).0 == ls[k].0 && v@[k].1@ == ls[k].1,
            None => r is None,
        },
{
    let mut ls = text_lines(content);
    if line < 1 || line >= ls.len() || line + 1 >= ls.len() {
        return None;
    }
    let ghost all = ls@.map_values(|l: String| l@);
    let after = ls.remove(line + 1);
    let here = ls.remove(line);
    let before = ls.remove(line - 1);
    assert(after@ == all[line + 1]);
    let mut out: Vec<(usize, String)> = Vec::new();
    out.push((line - 1, before));
    out.push((line, here));
    out.push((line + 1, after));
    Some(out)
}

} // verus!
