//! Positions and edits as the language server protocol counts them (line
//! and character, both `u32`), and their conversion to and from points in
//! a syntax tree.
use vstd::prelude::*;

use crate::treesitter::{Point, Range};

verus! {

/// A place in a document: its line and its character, both from zero.
#[derive(Debug, Clone, Copy, PartialEq, Eq, Structural)]
pub struct Position {
    pub line: u32,
    pub character: u32,
}

/// The span between two positions.
#[derive(Debug, Clone, Copy, PartialEq, Eq, Structural)]
pub struct TextRange {
    pub start: Position,
    pub end: Position,
}

/// A change to a document: the text that replaces a range, or, without a
/// range, the new text of the whole document.
#[derive(Debug)]
pub struct TextChange {
    pub range: Option<TextRange>,
    pub range_length: Option<u32>,
    pub text: String,
}

pub struct ChangeView {
    pub range: Option<TextRange>,
    pub range_length: Option<u32>,
    pub text: Seq<char>,
}

impl View for TextChange {
    type V = ChangeView;

    open spec fn view(&self) -> ChangeView {
        ChangeView { range: self.range, range_length: self.range_length, text: self.text@ }
    }
}

pub open spec fn changes_view(cs: Seq<TextChange>) -> Seq<ChangeView> {
    cs.map_values(|c: TextChange| c@)
}

/// A count that does not fit in a `u32` becomes zero.
pub open spec fn to_u32_or_zero(n: usize) -> u32 {
    if n <= u32::MAX {
        n as u32
    } else {
        0
    }
}

fn usize_to_u32_or_zero(n: usize) -> (r: u32)
    ensures
        r == to_u32_or_zero(n),
{
    if n <= 0xffff_ffffusize {
        n as u32
    } else {
        0
    }
}

/// The position of a point, a row or column too large for a `u32` taken
/// as zero.
pub open spec fn spec_lsp_position(point: Point) -> Position {
    Position { line: to_u32_or_zero(point.row), character: to_u32_or_zero(point.column) }
}

/// The position of a point (see `spec_lsp_position`).
pub fn to_lsp_position(point: Point) -> (r: Position)
    ensures
        r == spec_lsp_position(point),
{
    Position { line: usize_to_u32_or_zero(point.row), character: usize_to_u32_or_zero(point.column) }
}

/// The point of a position.
pub fn to_treesitter_point(position: Position) -> (r: Point)
    ensures
        r.row == position.line as usize,
        r.column == position.character as usize,
{
    Point { row: position.line as usize, column: position.character as usize }
}

/// The span between the start and the end point of a range.
pub fn to_lsp_range(range: Range) -> (r: TextRange)
    ensures
        r.start == spec_lsp_position(range.start_point),
        r.end == spec_lsp_position(range.end_point),
{
    TextRange { start: to_lsp_position(range.start_point), end: to_lsp_position(range.end_point) }
}


/// A position taken to a point and back is the same position; a point
/// whose row and column fit in a `u32` taken to a position and back is the
/// same point.
pub proof fn lemma_position_round_trip(position: Position, point: Point)
    ensures
        spec_lsp_position(Point { row: position.line as usize, column: position.character as usize }) == position,
        point.row <= u32::MAX && point.column <= u32::MAX ==> ({
            let p = spec_lsp_position(point);
            Point { row: p.line as usize, column: p.character as usize } == point
        }),
{
}

} // verus!
