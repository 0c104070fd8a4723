//! The syntax tree of a Java file, as tree-sitter's Java grammar gives it,
//! held as plain values: the nodes in pre-order, each with its kind, its
//! byte range and its depth; and a cursor over them that moves as
//! tree-sitter's tree cursor does and steps over comments.
use vstd::prelude::*;
use vstd::utf8::{decode_utf8, valid_utf8};

use crate::treesitter::Point;
use tree_sitter::Parser;
use tree_sitter_java::LANGUAGE;

verus! {

#[verifier::external_type_specification]
#[verifier::external_body]
pub struct ExUtf8Error(std::str::Utf8Error);

/// One node of the tree, in pre-order: its kind, the name of the field of
/// its parent that holds it (if any), its depth, and its span: the bytes
/// where it starts and ends, then the row and the column where it starts,
/// then those where it ends.
#[derive(Debug)]
pub struct SyntaxNode {
    pub kind: String,
    pub field: Option<String>,
    pub depth: u32,
    pub span: [usize; 6],
}

pub struct NodeView {
    pub kind: Seq<char>,
    pub field: Option<Seq<char>>,
    pub start: int,
    pub end: int,
    pub depth: int,
    pub start_point: Point,
    pub end_point: Point,
}

impl View for SyntaxNode {
    type V = NodeView;

    open spec fn view(&self) -> NodeView {
        NodeView {
            kind: self.kind@,
            field: match self.field {
                Some(f) => Some(f@),
                None => None,
            },
            start: self.span[0] as int,
            end: self.span[1] as int,
            depth: self.depth as int,
            start_point: Point { row: self.span[2], column: self.span[3] },
            end_point: Point { row: self.span[4], column: self.span[5] },
        }
    }
}

pub open spec fn nodes_view(ns: Seq<SyntaxNode>) -> Seq<NodeView> {
    ns.map_values(|n: SyntaxNode| n@)
}

/// The nodes, in pre-order with their depths, of the tree that
/// tree-sitter's Java grammar gives for a source text.
pub uninterp spec fn spec_java_syntax(bytes: Seq<u8>) -> Option<Seq<NodeView>>;

/// Parses `bytes` with `tree_sitter::Parser` set to tree-sitter-java's
/// language and walks the tree with its cursor from the root: each node the
/// cursor reaches is recorded with `Node::kind`, `TreeCursor::field_name`,
/// `Node::start_byte`, `Node::end_byte`, `TreeCursor::depth`,
/// `Node::start_position` and `Node::end_position`. The nodes are named
/// `spec_java_syntax` of the bytes; what is stated of them is only that the
/// root comes first and that every node's byte range lies within the text.
/// No parse (a language that does not load, so that the parser has none;
/// a parse that is cut short) gives `None`.
#[verifier::external_body]
fn java_syntax(bytes: &[u8]) -> (r: Option<Vec<SyntaxNode>>)
    ensures
        match r {
            Some(ns) => {
                &&& spec_java_syntax(bytes@) == Some(nodes_view(ns@))
                &&& ns@.len() >= 1
                &&& forall|i: int| 0 <= i < ns@.len() ==> #[trigger] ns@[i].span[0] <= ns@[i].span[1] <= bytes@.len()
            },
            None => spec_java_syntax(bytes@) is None,
        },
{
    let mut parser = Parser::new();
    let _ = parser.set_language(&LANGUAGE.into());
    let tree = parser.parse(bytes, None)?;
    let (mut c, mut ns) = (tree.walk(), Vec::new());
    loop {
        let n = c.node();
        ns.push(SyntaxNode { kind: n.kind().into(), field: c.field_name().map(Into::into), depth: c.depth(),
            span: [n.start_byte(), n.end_byte(), n.start_position().row, n.start_position().column, n.end_position().row, n.end_position().column] });
        if c.goto_first_child() { continue; }
        while !c.goto_next_sibling() {
            if !c.goto_parent() { return Some(ns); }
        }
    }
}

/// The tree of `bytes`, with the facts that the wrapper states.
pub fn parse_java_syntax(bytes: &[u8]) -> (r: Option<Vec<SyntaxNode>>)
    ensures
        match r {
            Some(ns) => {
                &&& spec_java_syntax(bytes@) == Some(nodes_view(ns@))
                &&& well_placed(nodes_view(ns@), bytes@.len() as int)
            },
            None => spec_java_syntax(bytes@) is None,
        },
{
    let r = java_syntax(bytes);
    match &r {
        Some(ns) => {
            assert(well_placed(nodes_view(ns@), bytes@.len() as int)) by {
                assert forall|i: int| 0 <= i < nodes_view(ns@).len() implies {
                    &&& 0 <= #[trigger] nodes_view(ns@)[i].start
                    &&& nodes_view(ns@)[i].start <= nodes_view(ns@)[i].end <= bytes@.len()
                } by {
                    assert(nodes_view(ns@)[i] == ns@[i]@);
                    assert(ns@[i].span[0] <= ns@[i].span[1] <= bytes@.len());
                }
            }
        },
        None => {},
    }
    r
}

/// At least the root, and every byte range within a text of `len` bytes.
pub open spec fn well_placed(ns: Seq<NodeView>, len: int) -> bool {
    &&& ns.len() >= 1
    &&& forall|i: int|
        0 <= i < ns.len() ==> {
            &&& 0 <= #[trigger] ns[i].start
            &&& ns[i].start <= ns[i].end <= len
        }
}

/// Scanning forward from `j` for the next node at the depth of `c`; a
/// shallower node first means there is none.
pub open spec fn next_sibling_from(ns: Seq<NodeView>, c: int, j: int) -> Option<int>
    decreases ns.len() - j,
{
    if j < 0 || j >= ns.len() || ns[j].depth < ns[c].depth {
        None
    } else if ns[j].depth == ns[c].depth {
        Some(j)
    } else {
        next_sibling_from(ns, c, j + 1)
    }
}

/// Scanning back from `j` for the nearest shallower node than `c`.
pub open spec fn parent_from(ns: Seq<NodeView>, c: int, j: int) -> Option<int>
    decreases j + 1,
{
    if j < 0 || j >= ns.len() {
        None
    } else if ns[j].depth < ns[c].depth {
        Some(j)
    } else {
        parent_from(ns, c, j - 1)
    }
}

/// Scanning back from `j` for the previous node at the depth of `c`; a
/// shallower node first means there is none.
pub open spec fn prev_sibling_from(ns: Seq<NodeView>, c: int, j: int) -> Option<int>
    decreases j + 1,
{
    if j < 0 || j >= ns.len() || ns[j].depth < ns[c].depth {
        None
    } else if ns[j].depth == ns[c].depth {
        Some(j)
    } else {
        prev_sibling_from(ns, c, j - 1)
    }
}

/// The previous sibling of `c`; the cursor's root has none.
pub open spec fn raw_prev_sibling(ns: Seq<NodeView>, root: int, c: int) -> Option<int> {
    if c == root || c < 0 || c >= ns.len() {
        None
    } else {
        prev_sibling_from(ns, c, c - 1)
    }
}

pub open spec fn previous_sibling(ns: Seq<NodeView>, root: int, c: int) -> (bool, int) {
    match raw_prev_sibling(ns, root, c) {
        None => (false, c),
        Some(p) => skip_comments(ns, root, p),
    }
}

proof fn lemma_prev_sibling_from(ns: Seq<NodeView>, c: int, j: int)
    ensures
        prev_sibling_from(ns, c, j) matches Some(k) ==> 0 <= k <= j && k < ns.len(),
    decreases j + 1,
{
    if 0 <= j < ns.len() && ns[j].depth > ns[c].depth {
        lemma_prev_sibling_from(ns, c, j - 1);
    }
}

/// The node after `c` when it lies one level deeper.
pub open spec fn raw_first_child(ns: Seq<NodeView>, c: int) -> Option<int> {
    if 0 <= c && c + 1 < ns.len() && ns[c + 1].depth == ns[c].depth + 1 {
        Some(c + 1)
    } else {
        None
    }
}

/// The next sibling of `c`; the cursor's root has none.
pub open spec fn raw_sibling(ns: Seq<NodeView>, root: int, c: int) -> Option<int> {
    if c == root || c < 0 || c >= ns.len() {
        None
    } else {
        next_sibling_from(ns, c, c + 1)
    }
}

/// The parent of `c`; the cursor cannot leave its root.
pub open spec fn raw_parent(ns: Seq<NodeView>, root: int, c: int) -> Option<int> {
    if c == root || c < 0 || c >= ns.len() {
        None
    } else {
        parent_from(ns, c, c - 1)
    }
}

pub open spec fn is_comment(kind: Seq<char>) -> bool {
    kind == "block_comment"@ || kind == "line_comment"@
}

/// From a comment, moves on to the next node that is not one; fails on a
/// comment without a next sibling.
pub open spec fn skip_comments(ns: Seq<NodeView>, root: int, c: int) -> (bool, int)
    decreases ns.len() - c,
{
    if 0 <= c < ns.len() && is_comment(ns[c].kind) {
        match raw_sibling(ns, root, c) {
            None => (false, c),
            Some(c2) => if c < c2 < ns.len() {
                skip_comments(ns, root, c2)
            } else {
                (false, c)
            },
        }
    } else {
        (true, c)
    }
}

/// The cursor moves: whether it moved, and where it stands after.
pub open spec fn first_child(ns: Seq<NodeView>, root: int, c: int) -> (bool, int) {
    match raw_first_child(ns, c) {
        None => (false, c),
        Some(c1) => skip_comments(ns, root, c1),
    }
}

pub open spec fn sibling(ns: Seq<NodeView>, root: int, c: int) -> (bool, int) {
    match raw_sibling(ns, root, c) {
        None => (false, c),
        Some(c1) => skip_comments(ns, root, c1),
    }
}

pub open spec fn parent(ns: Seq<NodeView>, root: int, c: int) -> (bool, int) {
    match raw_parent(ns, root, c) {
        None => (false, c),
        Some(p) => skip_comments(ns, root, p),
    }
}

/// Where the cursor stands after each move.
pub open spec fn down_pos(ns: Seq<NodeView>, root: int, c: int) -> int {
    first_child(ns, root, c).1
}

pub open spec fn next_pos(ns: Seq<NodeView>, root: int, c: int) -> int {
    sibling(ns, root, c).1
}

pub open spec fn up_pos(ns: Seq<NodeView>, root: int, c: int) -> int {
    parent(ns, root, c).1
}

pub open spec fn kind_at(ns: Seq<NodeView>, c: int) -> Seq<char> {
    ns[c].kind
}

proof fn lemma_next_sibling_from(ns: Seq<NodeView>, c: int, j: int)
    requires
        0 <= c < ns.len(),
    ensures
        next_sibling_from(ns, c, j) matches Some(k) ==> j <= k < ns.len(),
    decreases ns.len() - j,
{
    if 0 <= j < ns.len() && ns[j].depth > ns[c].depth {
        lemma_next_sibling_from(ns, c, j + 1);
    }
}

pub(crate) proof fn lemma_parent_from(ns: Seq<NodeView>, c: int, j: int)
    ensures
        parent_from(ns, c, j) matches Some(k) ==> 0 <= k <= j && k < ns.len(),
    decreases j + 1,
{
    if 0 <= j < ns.len() && ns[j].depth >= ns[c].depth {
        lemma_parent_from(ns, c, j - 1);
    }
}

pub proof fn lemma_skip_comments(ns: Seq<NodeView>, root: int, c: int)
    requires
        0 <= c < ns.len(),
    ensures
        c <= skip_comments(ns, root, c).1 < ns.len(),
    decreases ns.len() - c,
{
    if is_comment(ns[c].kind) {
        if c != root {
            lemma_next_sibling_from(ns, c, c + 1);
        }
        if let Some(c2) = raw_sibling(ns, root, c) {
            if c < c2 < ns.len() {
                lemma_skip_comments(ns, root, c2);
            }
        }
    }
}

/// Every move stays on a node of the tree; `first_child` and `sibling` only
/// move forward.
pub proof fn lemma_moves(ns: Seq<NodeView>, root: int, c: int)
    requires
        0 <= c < ns.len(),
    ensures
        c <= first_child(ns, root, c).1 < ns.len(),
        c <= sibling(ns, root, c).1 < ns.len(),
        first_child(ns, root, c).0 ==> c < first_child(ns, root, c).1,
        sibling(ns, root, c).0 ==> c < sibling(ns, root, c).1,
        0 <= parent(ns, root, c).1 < ns.len(),
{
    if let Some(c1) = raw_first_child(ns, c) {
        lemma_skip_comments(ns, root, c1);
    }
    if c != root {
        lemma_next_sibling_from(ns, c, c + 1);
        lemma_parent_from(ns, c, c - 1);
    }
    if let Some(c1) = raw_sibling(ns, root, c) {
        lemma_skip_comments(ns, root, c1);
    }
    if let Some(p) = raw_parent(ns, root, c) {
        lemma_skip_comments(ns, root, p);
    }
}

/// The text of node `c`, when its bytes are valid UTF-8.
pub open spec fn node_text(ns: Seq<NodeView>, b: Seq<u8>, c: int) -> Option<Seq<char>> {
    let bs = b.subrange(ns[c].start, ns[c].end);
    if valid_utf8(bs) {
        Some(decode_utf8(bs))
    } else {
        None
    }
}

/// The length of the longest prefix of `b` that is valid UTF-8.
pub open spec fn valid_prefix_len(b: Seq<u8>, n: int) -> nat
    decreases n,
{
    if n <= 0 {
        0
    } else if valid_utf8(b.take(n)) {
        n as nat
    } else {
        valid_prefix_len(b, n - 1)
    }
}

pub open spec fn valid_up_to(b: Seq<u8>) -> nat {
    valid_prefix_len(b, b.len() as int)
}

/// What `Utf8Error::valid_up_to` gives for an error: the index up to which
/// the input was valid UTF-8.
pub uninterp spec fn utf8_valid_up_to(e: std::str::Utf8Error) -> nat;

/// How far the text of node `c` is valid UTF-8.
pub open spec fn node_valid_up_to(ns: Seq<NodeView>, b: Seq<u8>, c: int) -> nat {
    valid_up_to(b.subrange(ns[c].start, ns[c].end))
}

/// Calls `std::str::from_utf8`, which gives a string exactly for valid
/// UTF-8, holding the characters that the bytes encode; for other bytes an
/// error whose `valid_up_to` is, as std documents, the largest index such
/// that the bytes before it are valid UTF-8.
#[verifier::external_body]
fn from_utf8(b: &[u8]) -> (r: Result<String, std::str::Utf8Error>)
    ensures
        match r {
            Ok(s) => valid_utf8(b@) && s@ == decode_utf8(b@),
            Err(e) => !valid_utf8(b@) && utf8_valid_up_to(e) == valid_up_to(b@),
        },
{
    std::str::from_utf8(b).map(|s| s.to_string())
}

/// The text of node `c`.
pub fn get_string(ns: &Vec<SyntaxNode>, bytes: &[u8], c: usize) -> (r: Result<String, std::str::Utf8Error>)
    requires
        c < ns.len(),
        well_placed(nodes_view(ns@), bytes@.len() as int),
    ensures
        match node_text(nodes_view(ns@), bytes@, c as int) {
            Some(t) => r matches Ok(s) && s@ == t,
            None => r matches Err(e) && utf8_valid_up_to(e) == node_valid_up_to(nodes_view(ns@), bytes@, c as int),
        },
{
    let ghost nv = nodes_view(ns@);
    assert(nv[c as int] == ns@[c as int]@);
    assert(0 <= nv[c as int].start);
    let n = &ns[c];
    from_utf8(&bytes[n.span[0]..n.span[1]])
}

/// Whether node `c` is of kind `kind`.
pub fn kind_is(ns: &Vec<SyntaxNode>, c: usize, kind: &str) -> (b: bool)
    requires
        c < ns.len(),
    ensures
        b == (nodes_view(ns@)[c as int].kind == kind@),
{
    assert(nodes_view(ns@)[c as int] == ns@[c as int]@);
    crate::text::str_eq(ns[c].kind.as_str(), kind)
}

fn is_comment_exec(ns: &Vec<SyntaxNode>, c: usize) -> (b: bool)
    requires
        c < ns.len(),
    ensures
        b == is_comment(nodes_view(ns@)[c as int].kind),
{
    kind_is(ns, c, "block_comment") || kind_is(ns, c, "line_comment")
}

pub(crate) fn depth_of(ns: &Vec<SyntaxNode>, c: usize) -> (d: u32)
    requires
        c < ns.len(),
    ensures
        d == nodes_view(ns@)[c as int].depth,
{
    assert(nodes_view(ns@)[c as int] == ns@[c as int]@);
    ns[c].depth
}

fn raw_sibling_exec(ns: &Vec<SyntaxNode>, root: usize, c: usize) -> (r: Option<usize>)
    requires
        c < ns.len(),
    ensures
        match r {
            Some(k) => raw_sibling(nodes_view(ns@), root as int, c as int) == Some(k as int),
            None => raw_sibling(nodes_view(ns@), root as int, c as int) is None,
        },
{
    assert(nodes_view(ns@).len() == ns@.len());
    if c == root {
        return None;
    }
    let d = depth_of(ns, c);
    let mut j = c + 1;
    while j < ns.len()
        invariant
            c < j <= ns.len(),
            c != root,
            nodes_view(ns@).len() == ns@.len(),
            d == nodes_view(ns@)[c as int].depth,
            next_sibling_from(nodes_view(ns@), c as int, c + 1) == next_sibling_from(nodes_view(ns@), c as int, j as int),
        decreases ns.len() - j,
    {
        let dj = depth_of(ns, j);
        if dj < d {
            assert(next_sibling_from(nodes_view(ns@), c as int, j as int) is None);
            return None;
        }
        if dj == d {
            assert(next_sibling_from(nodes_view(ns@), c as int, j as int) == Some(j as int));
            return Some(j);
        }
        assert(next_sibling_from(nodes_view(ns@), c as int, j as int) == next_sibling_from(nodes_view(ns@), c as int, j + 1));
        j += 1;
    }
    None
}

pub(crate) fn raw_parent_exec(ns: &Vec<SyntaxNode>, root: usize, c: usize) -> (r: Option<usize>)
    requires
        c < ns.len(),
    ensures
        match r {
            Some(k) => raw_parent(nodes_view(ns@), root as int, c as int) == Some(k as int),
            None => raw_parent(nodes_view(ns@), root as int, c as int) is None,
        },
{
    assert(nodes_view(ns@).len() == ns@.len());
    if c == root || c == 0 {
        return None;
    }
    let d = depth_of(ns, c);
    let mut j = c - 1;
    loop
        invariant
            j < c < ns.len(),
            c != root,
            nodes_view(ns@).len() == ns@.len(),
            d == nodes_view(ns@)[c as int].depth,
            parent_from(nodes_view(ns@), c as int, c - 1) == parent_from(nodes_view(ns@), c as int, j as int),
        decreases j,
    {
        if depth_of(ns, j) < d {
            assert(parent_from(nodes_view(ns@), c as int, j as int) == Some(j as int));
            return Some(j);
        }
        assert(parent_from(nodes_view(ns@), c as int, j as int) == parent_from(nodes_view(ns@), c as int, j - 1));
        if j == 0 {
            assert(parent_from(nodes_view(ns@), c as int, -1) is None);
            return None;
        }
        j -= 1;
    }
}

fn skip_comments_exec(ns: &Vec<SyntaxNode>, root: usize, c: usize) -> (r: (bool, usize))
    requires
        c < ns.len(),
    ensures
        (r.0, r.1 as int) == skip_comments(nodes_view(ns@), root as int, c as int),
    decreases ns.len() - c,
{
    if is_comment_exec(ns, c) {
        match raw_sibling_exec(ns, root, c) {
            None => (false, c),
            Some(c2) => {
                proof {
                    lemma_next_sibling_from(nodes_view(ns@), c as int, c + 1);
                }
                if c < c2 && c2 < ns.len() {
                    skip_comments_exec(ns, root, c2)
                } else {
                    (false, c)
                }
            },
        }
    } else {
        (true, c)
    }
}

fn raw_prev_sibling_exec(ns: &Vec<SyntaxNode>, root: usize, c: usize) -> (r: Option<usize>)
    requires
        c < ns.len(),
    ensures
        match r {
            Some(k) => raw_prev_sibling(nodes_view(ns@), root as int, c as int) == Some(k as int),
            None => raw_prev_sibling(nodes_view(ns@), root as int, c as int) is None,
        },
{
    assert(nodes_view(ns@).len() == ns@.len());
    if c == root || c == 0 {
        return None;
    }
    let d = depth_of(ns, c);
    let mut j = c - 1;
    loop
        invariant
            j < c < ns.len(),
            c != root,
            nodes_view(ns@).len() == ns@.len(),
            d == nodes_view(ns@)[c as int].depth,
            prev_sibling_from(nodes_view(ns@), c as int, c - 1) == prev_sibling_from(nodes_view(ns@), c as int, j as int),
        decreases j,
    {
        let dj = depth_of(ns, j);
        if dj < d {
            return None;
        }
        if dj == d {
            return Some(j);
        }
        if j == 0 {
            assert(prev_sibling_from(nodes_view(ns@), c as int, -1) is None);
            return None;
        }
        j -= 1;
    }
}

/// A cursor over the nodes that cannot leave the subtree of `root`; each
/// move steps over comments after it, as the comment-skipping moves of a
/// tree-sitter cursor do.
pub struct NodeCursor {
    pub root: usize,
    pub pos: usize,
}

impl NodeCursor {
    pub fn first_child(&mut self, ns: &Vec<SyntaxNode>) -> (moved: bool)
        requires
            old(self).pos < ns.len(),
        ensures
            final(self).root == old(self).root,
            (moved, final(self).pos as int) == first_child(nodes_view(ns@), old(self).root as int, old(self).pos as int),
            final(self).pos < ns.len(),
    {
        proof {
            lemma_moves(nodes_view(ns@), self.root as int, self.pos as int);
        }
        let c = self.pos;
        if c + 1 < ns.len() && depth_of(ns, c + 1) > 0 && depth_of(ns, c + 1) - 1 == depth_of(ns, c) {
            let (moved, p) = skip_comments_exec(ns, self.root, c + 1);
            self.pos = p;
            moved
        } else {
            false
        }
    }

    pub fn sibling(&mut self, ns: &Vec<SyntaxNode>) -> (moved: bool)
        requires
            old(self).pos < ns.len(),
        ensures
            final(self).root == old(self).root,
            (moved, final(self).pos as int) == sibling(nodes_view(ns@), old(self).root as int, old(self).pos as int),
            final(self).pos < ns.len(),
    {
        proof {
            lemma_moves(nodes_view(ns@), self.root as int, self.pos as int);
        }
        match raw_sibling_exec(ns, self.root, self.pos) {
            None => false,
            Some(c1) => {
                let (moved, p) = skip_comments_exec(ns, self.root, c1);
                self.pos = p;
                moved
            },
        }
    }

    pub fn parent(&mut self, ns: &Vec<SyntaxNode>) -> (moved: bool)
        requires
            old(self).pos < ns.len(),
        ensures
            final(self).root == old(self).root,
            (moved, final(self).pos as int) == parent(nodes_view(ns@), old(self).root as int, old(self).pos as int),
            final(self).pos < ns.len(),
    {
        proof {
            lemma_moves(nodes_view(ns@), self.root as int, self.pos as int);
        }
        match raw_parent_exec(ns, self.root, self.pos) {
            None => false,
            Some(p) => {
                let (moved, q) = skip_comments_exec(ns, self.root, p);
                self.pos = q;
                moved
            },
        }
    }

    pub fn previous_sibling(&mut self, ns: &Vec<SyntaxNode>) -> (moved: bool)
        requires
            old(self).pos < ns.len(),
        ensures
            final(self).root == old(self).root,
            (moved, final(self).pos as int) == previous_sibling(nodes_view(ns@), old(self).root as int, old(self).pos as int),
            final(self).pos < ns.len(),
    {
        match raw_prev_sibling_exec(ns, self.root, self.pos) {
            None => false,
            Some(p) => {
                proof {
                    lemma_prev_sibling_from(nodes_view(ns@), self.pos as int, self.pos - 1);
                    lemma_skip_comments(nodes_view(ns@), self.root as int, p as int);
                }
                let (moved, q) = skip_comments_exec(ns, self.root, p);
                self.pos = q;
                moved
            },
        }
    }
}

} // verus!
