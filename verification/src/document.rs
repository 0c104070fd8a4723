//! An open Java document: its text held in a rope, the text as a string
//! and its syntax tree, and the edits that the editor sends applied to it.
use vstd::prelude::*;
use vstd::utf8::encode_utf8;

use crate::java::syntax::{nodes_view, parse_java_syntax, spec_java_syntax, SyntaxNode};
use crate::lsp::{changes_view, ChangeView, TextChange};
use crate::treesitter::TreesitterError;
use ropey::Rope;
use std::path::PathBuf;

verus! {

#[verifier::external_type_specification]
#[verifier::external_body]
pub struct ExRope(Rope);

#[verifier::external_type_specification]
#[verifier::external_body]
pub struct ExPathBuf(PathBuf);

/// The characters that a rope holds.
pub uninterp spec fn rope_text(r: Rope) -> Seq<char>;

/// The characters that end a line for ropey with its default features: LF,
/// VT, FF, CR, NEL, the line separator and the paragraph separator.
pub open spec fn is_line_break(c: char) -> bool {
    c == '\n' || c == '\u{0B}' || c == '\u{0C}' || c == '\r' || c == '\u{85}' || c == '\u{2028}'
        || c == '\u{2029}'
}

/// A line ends just before `i`: after a line break, where a CR right
/// before an LF is one break together with it.
pub open spec fn ends_line_at(t: Seq<char>, i: int) -> bool {
    &&& 0 < i <= t.len()
    &&& is_line_break(t[i - 1])
    &&& !(t[i - 1] == '\r' && i < t.len() && t[i] == '\n')
}

/// The places from `i` on where a new line starts.
pub open spec fn line_starts_from(t: Seq<char>, i: int) -> Seq<int>
    decreases t.len() + 1 - i,
{
    if i < 1 || i > t.len() {
        seq![]
    } else if ends_line_at(t, i) {
        seq![i] + line_starts_from(t, i + 1)
    } else {
        line_starts_from(t, i + 1)
    }
}

/// Where each line of `t` starts: at the start, and after each line break.
pub open spec fn line_starts(t: Seq<char>) -> Seq<int> {
    seq![0int] + line_starts_from(t, 1)
}

/// The number of lines of `t`, as `Rope::len_lines` counts them.
pub open spec fn line_count(t: Seq<char>) -> int {
    line_starts(t).len() as int
}

/// Where line `l` of `t` starts; one past the last line, the end of `t`.
pub open spec fn line_start(t: Seq<char>, l: int) -> int {
    if 0 <= l < line_starts(t).len() {
        line_starts(t)[l]
    } else {
        t.len() as int
    }
}

proof fn lemma_line_starts_from_bounds(t: Seq<char>, i: int)
    requires
        1 <= i,
    ensures
        forall|k: int| 0 <= k < line_starts_from(t, i).len() ==> i <= #[trigger] line_starts_from(t, i)[k] <= t.len(),
    decreases t.len() + 1 - i,
{
    if i <= t.len() {
        lemma_line_starts_from_bounds(t, i + 1);
        let rest = line_starts_from(t, i + 1);
        if ends_line_at(t, i) {
            assert forall|k: int| 0 <= k < line_starts_from(t, i).len() implies i <= #[trigger] line_starts_from(
                t,
                i,
            )[k] <= t.len() by {
                if k > 0 {
                    assert(line_starts_from(t, i)[k] == rest[k - 1]);
                }
            }
        }
    }
}

/// Every line starts within the text.
pub proof fn lemma_line_start_bounds(t: Seq<char>, l: int)
    ensures
        0 <= line_start(t, l) <= t.len(),
{
    lemma_line_starts_from_bounds(t, 1);
    if 1 <= l < line_starts(t).len() {
        assert(line_starts(t)[l] == line_starts_from(t, 1)[l - 1]);
    }
}

/// Calls `Rope::from_str`: a rope holding the characters of `text`.
#[verifier::external_body]
fn rope_from_str(text: &str) -> (r: Rope)
    ensures
        rope_text(r) == text@,
{
    Rope::from_str(text)
}

/// Calls `Rope::len_lines`: the number of lines that the rope's text has
/// (see `line_count`).
#[verifier::external_body]
fn rope_len_lines(r: &Rope) -> (n: usize)
    ensures
        n == line_count(rope_text(*r)),
{
    r.len_lines()
}

/// Calls `Rope::len_chars`: the number of characters in the rope.
#[verifier::external_body]
fn rope_len_chars(r: &Rope) -> (n: usize)
    ensures
        n == rope_text(*r).len(),
{
    r.len_chars()
}

/// Calls `Rope::line_to_char`, which panics past one line after the last:
/// where line `line` starts (see `line_start`).
#[verifier::external_body]
fn rope_line_to_char(r: &Rope, line: usize) -> (c: usize)
    requires
        line <= line_count(rope_text(*r)),
    ensures
        c == line_start(rope_text(*r), line as int),
{
    r.line_to_char(line)
}

/// Calls `Rope::remove` on `start..end`, which panics unless
/// `start <= end <= len_chars()`: the characters of that range are gone.
#[verifier::external_body]
fn rope_remove(r: &mut Rope, start: usize, end: usize)
    requires
        start <= end <= rope_text(*old(r)).len(),
    ensures
        rope_text(*final(r)) == rope_text(*old(r)).subrange(0, start as int) + rope_text(*old(r)).subrange(
            end as int,
            rope_text(*old(r)).len() as int,
        ),
{
    r.remove(start..end)
}

/// Calls `Rope::insert`, which panics past the end: `text` stands at
/// `at`, with what stood from there after it.
#[verifier::external_body]
fn rope_insert(r: &mut Rope, at: usize, text: &str)
    requires
        at <= rope_text(*old(r)).len(),
    ensures
        rope_text(*final(r)) == rope_text(*old(r)).subrange(0, at as int) + text@ + rope_text(*old(r)).subrange(
            at as int,
            rope_text(*old(r)).len() as int,
        ),
{
    r.insert(at, text)
}

/// Calls `Rope::to_string`: the rope's characters as a string.
#[verifier::external_body]
fn rope_to_string(r: &Rope) -> (s: String)
    ensures
        s@ == rope_text(*r),
{
    r.to_string()
}

/// Calls `Rope::clone`: a rope holding the same characters.
#[verifier::external_body]
fn rope_clone(r: &Rope) -> (c: Rope)
    ensures
        rope_text(c) == rope_text(*r),
{
    r.clone()
}


/// Where a change's range starts and ends in `t`: the start of the line
/// plus the character.
pub open spec fn change_at(t: Seq<char>, p: crate::lsp::Position) -> int {
    line_start(t, p.line as int) + p.character
}

/// A change can be made to `t`: both lines of its range exist (one past
/// the last counts) and both ends lie within `t`.
pub open spec fn change_fits(t: Seq<char>, c: ChangeView) -> bool {
    match c.range {
        None => true,
        Some(r) => {
            &&& r.start.line <= line_count(t)
            &&& r.end.line <= line_count(t)
            &&& change_at(t, r.start) <= t.len()
            &&& change_at(t, r.end) <= t.len()
        },
    }
}

/// `t` after a change: the text between the two ends of the range, in
/// either order, gives way to the change's text; without a range and
/// without a range length, the change's text is the whole new text.
pub open spec fn apply_change(t: Seq<char>, c: ChangeView) -> Seq<char> {
    match c.range {
        Some(r) => {
            let s = change_at(t, r.start);
            let e = change_at(t, r.end);
            let a = if s < e {
                s
            } else {
                e
            };
            let b = if s < e {
                e
            } else {
                s
            };
            t.subrange(0, a) + c.text + t.subrange(b, t.len() as int)
        },
        None => if c.range_length is None {
            c.text
        } else {
            t
        },
    }
}

/// Each change in turn can be made.
pub open spec fn changes_fit(t: Seq<char>, cs: Seq<ChangeView>) -> bool
    decreases cs.len(),
{
    cs.len() == 0 || (change_fits(t, cs[0]) && changes_fit(apply_change(t, cs[0]), cs.drop_first()))
}

/// `t` after each change in turn.
pub open spec fn apply_changes(t: Seq<char>, cs: Seq<ChangeView>) -> Seq<char>
    decreases cs.len(),
{
    if cs.len() == 0 {
        t
    } else {
        apply_changes(apply_change(t, cs[0]), cs.drop_first())
    }
}

#[derive(Debug)]
pub enum DocumentError {
    Treesitter(TreesitterError),
    Io(std::io::Error),
}

/// An open document: its text as a rope and as a string, the syntax tree
/// of the string, its path and its class path.
pub struct Document {
    pub text: Rope,
    pub str_data: String,
    pub tree: Vec<SyntaxNode>,
    pub path: PathBuf,
    pub class_path: String,
}

/// The tree fits the string: it is the parse of its bytes, and every node
/// lies within them.
pub open spec fn tree_of(tree: Seq<SyntaxNode>, s: Seq<char>) -> bool {
    &&& spec_java_syntax(encode_utf8(s)) == Some(nodes_view(tree))
    &&& crate::java::syntax::well_placed(nodes_view(tree), encode_utf8(s).len() as int)
}

fn change_fits_exec(r: &Rope, c: &TextChange) -> (b: bool)
    ensures
        b == change_fits(rope_text(*r), c@),
{
    match c.range {
        None => true,
        Some(range) => {
            let lines = rope_len_lines(r);
            let len = rope_len_chars(r);
            if range.start.line as usize > lines || range.end.line as usize > lines {
                return false;
            }
            let s = rope_line_to_char(r, range.start.line as usize);
            let e = rope_line_to_char(r, range.end.line as usize);
            s <= len && (range.start.character as usize) <= len - s && e <= len && (range.end.character as usize)
                <= len - e
        },
    }
}

fn apply_change_exec(r: &mut Rope, c: &TextChange)
    requires
        change_fits(rope_text(*old(r)), c@),
    ensures
        rope_text(*final(r)) == apply_change(rope_text(*old(r)), c@),
{
    let ghost t = rope_text(*r);
    match &c.range {
        Some(range) => {
            let sp = range.start;
            let ep = range.end;
            let _len = rope_len_chars(r);
            proof {
                lemma_line_start_bounds(t, sp.line as int);
                lemma_line_start_bounds(t, ep.line as int);
            }
            let start_idx = rope_line_to_char(r, sp.line as usize) + sp.character as usize;
            let end_idx = rope_line_to_char(r, ep.line as usize) + ep.character as usize;
            let do_insert = c.text.as_str().unicode_len() > 0;
            if start_idx < end_idx {
                rope_remove(r, start_idx, end_idx);
                if do_insert {
                    rope_insert(r, start_idx, c.text.as_str());
                }
            } else {
                rope_remove(r, end_idx, start_idx);
                if do_insert {
                    rope_insert(r, end_idx, c.text.as_str());
                }
            }
            proof {
                let a = if start_idx < end_idx {
                    start_idx as int
                } else {
                    end_idx as int
                };
                let b = if start_idx < end_idx {
                    end_idx as int
                } else {
                    start_idx as int
                };
                if !do_insert {
                    assert(c.text@.len() == 0);
                }
                assert(rope_text(*r) =~= t.subrange(0, a) + c.text@ + t.subrange(b, t.len() as int));
            }
        },
        None => {
            if c.range_length.is_none() {
                *r = rope_from_str(c.text.as_str());
            }
        },
    }
}

impl Document {
    /// A document for `text` (see `setup_rope`).
    pub fn setup(text: &str, path: PathBuf, class_path: String) -> (r: Result<Self, DocumentError>)
        ensures
            match spec_java_syntax(encode_utf8(text@)) {
                None => r matches Err(DocumentError::Treesitter(TreesitterError::NoNodeFound)),
                Some(_) => r matches Ok(d) && {
                    &&& rope_text(d.text) == text@
                    &&& d.str_data@ == text@
                    &&& tree_of(d.tree@, text@)
                    &&& d.path == path
                    &&& d.class_path == class_path
                },
            },
    {
        let rope = rope_from_str(text);
        Self::setup_rope(text, path, rope, class_path)
    }

    /// A document with the rope `rope` and the string and tree of `text`;
    /// where `text` gives no tree, none.
    pub fn setup_rope(text: &str, path: PathBuf, rope: Rope, class_path: String) -> (r: Result<
        Self,
        DocumentError,
    >)
        ensures
            match spec_java_syntax(encode_utf8(text@)) {
                None => r matches Err(DocumentError::Treesitter(TreesitterError::NoNodeFound)),
                Some(_) => r matches Ok(d) && {
                    &&& rope_text(d.text) == rope_text(rope)
                    &&& d.str_data@ == text@
                    &&& tree_of(d.tree@, text@)
                    &&& d.path == path
                    &&& d.class_path == class_path
                },
            },
    {
        let bytes = text.as_bytes();
        match parse_java_syntax(bytes) {
            None => Err(DocumentError::Treesitter(TreesitterError::NoNodeFound)),
            Some(tree) => Ok(Self { text: rope, str_data: text.to_string(), tree, path, class_path }),
        }
    }

    pub fn as_str(&self) -> (r: &str)
        ensures
            r@ == self.str_data@,
    {
        self.str_data.as_str()
    }

    pub fn as_bytes(&self) -> (r: &[u8])
        ensures
            r@ == encode_utf8(self.str_data@),
    {
        self.as_str().as_bytes()
    }

    /// The string and tree of the rope's text; where that text gives no
    /// tree, the old tree stays.
    fn reparse(&mut self)
        ensures
            final(self).text == old(self).text,
            final(self).path == old(self).path,
            final(self).class_path == old(self).class_path,
            final(self).str_data@ == rope_text(old(self).text),
            match spec_java_syntax(encode_utf8(rope_text(old(self).text))) {
                Some(_) => tree_of(final(self).tree@, rope_text(old(self).text)),
                None => final(self).tree@ == old(self).tree@,
            },
    {
        self.str_data = rope_to_string(&self.text);
        let parsed = parse_java_syntax(self.str_data.as_str().as_bytes());
        if let Some(ntree) = parsed {
            self.tree = ntree;
        }
    }

    /// Takes `text` as the document's text and reads it again.
    pub fn replace_text(&mut self, text: Rope)
        ensures
            rope_text(final(self).text) == rope_text(text),
            final(self).path == old(self).path,
            final(self).class_path == old(self).class_path,
            final(self).str_data@ == rope_text(text),
            match spec_java_syntax(encode_utf8(rope_text(text))) {
                Some(_) => tree_of(final(self).tree@, rope_text(text)),
                None => final(self).tree@ == old(self).tree@,
            },
    {
        self.text = text;
        self.reparse();
    }

    /// Makes each change in turn (see `apply_change`), then reads the new
    /// text again.
    pub fn apply_text_changes(&mut self, changes: &Vec<TextChange>)
        requires
            changes_fit(rope_text(old(self).text), changes_view(changes@)),
        ensures
            rope_text(final(self).text) == apply_changes(rope_text(old(self).text), changes_view(changes@)),
            final(self).path == old(self).path,
            final(self).class_path == old(self).class_path,
            final(self).str_data@ == rope_text(final(self).text),
            match spec_java_syntax(encode_utf8(rope_text(final(self).text))) {
                Some(_) => tree_of(final(self).tree@, rope_text(final(self).text)),
                None => final(self).tree@ == old(self).tree@,
            },
    {
        let ghost t0 = rope_text(self.text);
        let ghost cs = changes_view(changes@);
        let mut k: usize = 0;
        assert(cs.skip(0) =~= cs);
        while k < changes.len()
            invariant
                k <= changes@.len(),
                cs == changes_view(changes@),
                changes_fit(rope_text(self.text), cs.skip(k as int)),
                apply_changes(t0, cs) == apply_changes(rope_text(self.text), cs.skip(k as int)),
                self.path == old(self).path,
                self.class_path == old(self).class_path,
                self.tree@ == old(self).tree@,
            decreases changes@.len() - k,
        {
            let ghost rest = cs.skip(k as int);
            assert(rest[0] == changes@[k as int]@);
            assert(rest.drop_first() =~= cs.skip(k + 1));
            apply_change_exec(&mut self.text, &changes[k]);
            k += 1;
        }
        assert(cs.skip(k as int) =~= Seq::<ChangeView>::empty());
        self.reparse();
    }

    /// Makes the changes (see `apply_text_changes`) where each in turn can
    /// be made, and tells whether they were; where one cannot, the document
    /// stays as it is.
    pub fn try_apply_text_changes(&mut self, changes: &Vec<TextChange>) -> (applied: bool)
        ensures
            applied == changes_fit(rope_text(old(self).text), changes_view(changes@)),
            applied ==> rope_text(final(self).text) == apply_changes(rope_text(old(self).text), changes_view(changes@)),
            applied ==> final(self).str_data@ == rope_text(final(self).text),
            !applied ==> *final(self) == *old(self),
    {
        let ghost t0 = rope_text(self.text);
        let ghost cs = changes_view(changes@);
        let mut sim = rope_clone(&self.text);
        let mut k: usize = 0;
        assert(cs.skip(0) =~= cs);
        while k < changes.len()
            invariant
                k <= changes@.len(),
                cs == changes_view(changes@),
                t0 == rope_text(self.text),
                changes_fit(t0, cs) == changes_fit(rope_text(sim), cs.skip(k as int)),
            decreases changes@.len() - k,
        {
            let ghost rest = cs.skip(k as int);
            assert(rest[0] == changes@[k as int]@);
            assert(rest.drop_first() =~= cs.skip(k + 1));
            if !change_fits_exec(&sim, &changes[k]) {
                return false;
            }
            apply_change_exec(&mut sim, &changes[k]);
            k += 1;
        }
        assert(cs.skip(k as int) =~= Seq::<ChangeView>::empty());
        self.apply_text_changes(changes);
        true
    }
}


/// Making changes in two batches, one after the other, is making them all
/// at once: all of them fit exactly when the first batch fits and the
/// second fits the text that the first leaves, and the texts agree.
pub proof fn lemma_apply_changes_split(t: Seq<char>, a: Seq<ChangeView>, b: Seq<ChangeView>)
    ensures
        changes_fit(t, a + b) == (changes_fit(t, a) && changes_fit(apply_changes(t, a), b)),
        apply_changes(t, a + b) == apply_changes(apply_changes(t, a), b),
    decreases a.len(),
{
    if a.len() == 0 {
        assert(a + b =~= b);
    } else {
        lemma_apply_changes_split(apply_change(t, a[0]), a.drop_first(), b);
        assert((a + b).drop_first() =~= a.drop_first() + b);
        assert((a + b)[0] == a[0]);
    }
}

} // verus!
