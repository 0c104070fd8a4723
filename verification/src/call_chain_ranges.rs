//! Call chains whose links keep the range they were read from, with the
//! argument list that the cursor stands in as a link of its own: what was
//! called before it, which argument the cursor is in, and the chain of
//! each argument.
use vstd::prelude::*;

use crate::java::syntax::{
    down_pos, kind_at, kind_is, next_pos, nodes_view, sibling, up_pos, well_placed, NodeCursor, NodeView,
    SyntaxNode,
};
use crate::java::{text_or_empty, text_or_empty_exec};
use crate::treesitter::{child_for_point, goto_first_child_for_point, is_point_in_range, point_le, Point, Range};
use crate::variable::node_range;

verus! {

/// One link of a call chain, with the range it was read from.
#[derive(Debug, PartialEq)]
pub enum CallItem {
    MethodCall { name: String, range: Range },
    FieldAccess { name: String, range: Range },
    Variable { name: String, range: Range },
    Class { name: String, range: Range },
    ClassOrVariable { name: String, range: Range },
    ArgumentList { prev: Vec<CallItem>, active_param: usize, filled_params: Vec<Vec<CallItem>>, range: Range },
}

pub enum ItemView {
    MethodCall { name: Seq<char>, range: Range },
    FieldAccess { name: Seq<char>, range: Range },
    Variable { name: Seq<char>, range: Range },
    Class { name: Seq<char>, range: Range },
    ClassOrVariable { name: Seq<char>, range: Range },
    ArgumentList { prev: Seq<ItemView>, active_param: nat, filled_params: Seq<Seq<ItemView>>, range: Range },
}

pub open spec fn item_view(i: CallItem) -> ItemView
    decreases i,
{
    match i {
        CallItem::MethodCall { name, range } => ItemView::MethodCall { name: name@, range },
        CallItem::FieldAccess { name, range } => ItemView::FieldAccess { name: name@, range },
        CallItem::Variable { name, range } => ItemView::Variable { name: name@, range },
        CallItem::Class { name, range } => ItemView::Class { name: name@, range },
        CallItem::ClassOrVariable { name, range } => ItemView::ClassOrVariable { name: name@, range },
        CallItem::ArgumentList { prev, active_param, filled_params, range } => ItemView::ArgumentList {
            prev: chain_view(prev@),
            active_param: active_param as nat,
            filled_params: params_view(filled_params@),
            range,
        },
    }
}

pub open spec fn chain_view(v: Seq<CallItem>) -> Seq<ItemView>
    decreases v,
{
    if v.len() == 0 {
        seq![]
    } else {
        chain_view(v.drop_last()).push(item_view(v.last()))
    }
}

pub open spec fn params_view(v: Seq<Vec<CallItem>>) -> Seq<Seq<ItemView>>
    decreases v,
{
    if v.len() == 0 {
        seq![]
    } else {
        params_view(v.drop_last()).push(chain_view(v.last()@))
    }
}

impl View for CallItem {
    type V = ItemView;

    open spec fn view(&self) -> ItemView {
        item_view(*self)
    }
}

pub(crate) proof fn lemma_chain_view_len(v: Seq<CallItem>)
    ensures
        chain_view(v).len() == v.len(),
    decreases v.len(),
{
    if v.len() > 0 {
        lemma_chain_view_len(v.drop_last());
    }
}

pub(crate) proof fn lemma_chain_view_push(v: Seq<CallItem>, x: CallItem)
    ensures
        chain_view(v.push(x)) == chain_view(v).push(item_view(x)),
{
    assert(v.push(x).drop_last() =~= v);
}

pub(crate) proof fn lemma_chain_view_index(v: Seq<CallItem>, i: int)
    requires
        0 <= i < v.len(),
    ensures
        chain_view(v)[i] == item_view(v[i]),
        chain_view(v).len() == v.len(),
    decreases v.len(),
{
    lemma_chain_view_len(v);
    if i < v.len() - 1 {
        lemma_chain_view_index(v.drop_last(), i);
    }
}

proof fn lemma_chain_view_append(a: Seq<CallItem>, b: Seq<CallItem>)
    ensures
        chain_view(a + b) == chain_view(a) + chain_view(b),
    decreases b.len(),
{
    if b.len() == 0 {
        assert(a + b =~= a);
    } else {
        lemma_chain_view_append(a, b.drop_last());
        assert((a + b).drop_last() =~= a + b.drop_last());
        assert((a + b).last() == b.last());
    }
}

proof fn lemma_chain_view_subrange(v: Seq<CallItem>, n: int)
    requires
        0 <= n <= v.len(),
    ensures
        chain_view(v.subrange(0, n)) == chain_view(v).subrange(0, n),
    decreases v.len() - n,
{
    lemma_chain_view_len(v);
    if n < v.len() {
        lemma_chain_view_subrange(v, n + 1);
        let s = v.subrange(0, n + 1);
        assert(s.drop_last() =~= v.subrange(0, n));
        lemma_chain_view_len(s);
        assert(chain_view(v).subrange(0, n + 1).drop_last() =~= chain_view(v).subrange(0, n));
    } else {
        assert(v.subrange(0, n) =~= v);
        assert(chain_view(v).subrange(0, n) =~= chain_view(v));
    }
}

impl Clone for CallItem {
    fn clone(&self) -> (r: Self)
        ensures
            r@ == self@,
    {
        copy_item(self)
    }
}

pub(crate) fn copy_item(i: &CallItem) -> (r: CallItem)
    ensures
        item_view(r) == item_view(*i),
    decreases *i, 2nat,
{
    match i {
        CallItem::MethodCall { name, range } => CallItem::MethodCall { name: name.clone(), range: *range },
        CallItem::FieldAccess { name, range } => CallItem::FieldAccess { name: name.clone(), range: *range },
        CallItem::Variable { name, range } => CallItem::Variable { name: name.clone(), range: *range },
        CallItem::Class { name, range } => CallItem::Class { name: name.clone(), range: *range },
        CallItem::ClassOrVariable { name, range } => CallItem::ClassOrVariable { name: name.clone(), range: *range },
        CallItem::ArgumentList { prev, active_param, filled_params, range } => CallItem::ArgumentList {
            prev: copy_chain(prev),
            active_param: *active_param,
            filled_params: copy_params(filled_params),
            range: *range,
        },
    }
}

fn copy_chain(v: &Vec<CallItem>) -> (r: Vec<CallItem>)
    ensures
        chain_view(r@) == chain_view(v@),
    decreases v@, 1nat,
{
    let mut out: Vec<CallItem> = Vec::new();
    let mut k: usize = 0;
    while k < v.len()
        invariant
            k <= v.len(),
            chain_view(out@) == chain_view(v@.take(k as int)),
        decreases v.len() - k,
    {
        assert(decreases_to!(v@ => v@[k as int]));
        let c = copy_item(&v[k]);
        let ghost before = out@;
        out.push(c);
        proof {
            assert(out@.drop_last() =~= before);
            assert(v@.take(k + 1).drop_last() =~= v@.take(k as int));
        }
        k += 1;
    }
    assert(v@.take(k as int) =~= v@);
    out
}

fn copy_params(v: &Vec<Vec<CallItem>>) -> (r: Vec<Vec<CallItem>>)
    ensures
        params_view(r@) == params_view(v@),
    decreases v@, 1nat,
{
    let mut out: Vec<Vec<CallItem>> = Vec::new();
    let mut k: usize = 0;
    while k < v.len()
        invariant
            k <= v.len(),
            params_view(out@) == params_view(v@.take(k as int)),
        decreases v.len() - k,
    {
        assert(decreases_to!(v@ => v@[k as int]));
        let c = copy_chain(&v[k]);
        let ghost before = out@;
        out.push(c);
        proof {
            assert(out@.drop_last() =~= before);
            assert(v@.take(k + 1).drop_last() =~= v@.take(k as int));
        }
        k += 1;
    }
    assert(v@.take(k as int) =~= v@);
    out
}


/// The name at `c`, a class or a variable, with its range.
pub open spec fn name_item(ns: Seq<NodeView>, b: Seq<u8>, c: int) -> ItemView {
    ItemView::ClassOrVariable { name: text_or_empty(ns, b, c), range: node_range(ns[c]) }
}

/// The class that an object creation at `n` makes: the node after the
/// first child of its first child.
pub open spec fn creation_items(ns: Seq<NodeView>, b: Seq<u8>, n: int) -> Seq<ItemView> {
    let d = next_pos(ns, n, down_pos(ns, n, down_pos(ns, n, n)));
    seq![ItemView::Class { name: text_or_empty(ns, b, d), range: node_range(ns[d]) }]
}

/// The chain of a value: a name, a field access, a method invocation, an
/// object creation, or a string literal, whose class is `String`.
pub open spec fn value_items(ns: Seq<NodeView>, b: Seq<u8>, p: int) -> Seq<ItemView>
    decreases ns.len() - p, 2nat,
{
    if p < 0 || p >= ns.len() {
        seq![]
    } else {
        let k = kind_at(ns, p);
        if k == "identifier"@ {
            seq![name_item(ns, b, p)]
        } else if k == "field_access"@ {
            access_items(ns, b, p)
        } else if k == "method_invocation"@ {
            invocation_items(ns, b, p)
        } else if k == "object_creation_expression"@ {
            creation_items(ns, b, p)
        } else if k == "string_literal"@ {
            seq![ItemView::Class { name: "String"@, range: node_range(ns[p]) }]
        } else {
            seq![]
        }
    }
}

/// The chain of a method invocation at `n`, ending with the method called.
pub open spec fn invocation_items(ns: Seq<NodeView>, b: Seq<u8>, n: int) -> Seq<ItemView>
    decreases ns.len() - n, 1nat,
{
    if n < 0 || n >= ns.len() {
        seq![]
    } else {
        let c = down_pos(ns, n, n);
        let k = kind_at(ns, c);
        let m = next_pos(ns, n, next_pos(ns, n, c));
        let call = ItemView::MethodCall { name: text_or_empty(ns, b, m), range: node_range(ns[m]) };
        if k == "field_access"@ {
            access_items(ns, b, n).push(call)
        } else if k == "identifier"@ {
            seq![name_item(ns, b, c), call]
        } else if k == "method_invocation"@ && n < c < ns.len() {
            invocation_items(ns, b, c)
        } else if k == "object_creation_expression"@ {
            creation_items(ns, b, n).push(call)
        } else {
            seq![]
        }
    }
}

/// The chain of a field access at `n`, ending with the field read unless
/// it is `return` or missing.
pub open spec fn access_items(ns: Seq<NodeView>, b: Seq<u8>, n: int) -> Seq<ItemView>
    decreases ns.len() - n, 0nat,
{
    if n < 0 || n >= ns.len() {
        seq![]
    } else {
        let c = down_pos(ns, n, n);
        let k = kind_at(ns, c);
        let (moved, f) = sibling(ns, n, next_pos(ns, n, c));
        let field = ItemView::FieldAccess { name: text_or_empty(ns, b, f), range: node_range(ns[f]) };
        if k == "identifier"@ {
            if moved && text_or_empty(ns, b, f) != "return"@ {
                seq![name_item(ns, b, c), field]
            } else {
                seq![name_item(ns, b, c)]
            }
        } else if k == "string_literal"@ {
            seq![ItemView::Class { name: "String"@, range: node_range(ns[c]) }]
        } else if k == "method_invocation"@ && n < c < ns.len() {
            if moved {
                invocation_items(ns, b, c).push(field)
            } else {
                invocation_items(ns, b, c)
            }
        } else if k == "field_access"@ && n < c < ns.len() {
            access_items(ns, b, c)
        } else if k == "object_creation_expression"@ {
            let g = next_pos(ns, n, next_pos(ns, n, c));
            creation_items(ns, b, c).push(
                ItemView::FieldAccess { name: text_or_empty(ns, b, g), range: node_range(ns[g]) },
            )
        } else {
            seq![]
        }
    }
}

/// The range that spans from the start of `a` to the end of `c`.
pub open spec fn add_ranges(a: Range, c: Range) -> Range {
    Range { start_byte: a.start_byte, end_byte: c.end_byte, start_point: a.start_point, end_point: c.end_point }
}

pub open spec fn in_range(p: Point, r: Range) -> bool {
    point_le(r.start_point, p) && point_le(p, r.end_point)
}

/// The argument after the cursor at `p`: its chain, its range (taking in
/// the `,` or `)` after it), and where the cursor stands after.
pub open spec fn argument_at(ns: Seq<NodeView>, b: Seq<u8>, p: int) -> (Seq<ItemView>, Range, int) {
    let q = next_pos(ns, 0, p);
    let (moved, r) = sibling(ns, 0, q);
    let range = if moved && (kind_at(ns, r) == ","@ || kind_at(ns, r) == ")"@) {
        add_ranges(node_range(ns[q]), node_range(ns[r]))
    } else {
        node_range(ns[q])
    };
    (value_items(ns, b, q), range, r)
}

/// While the cursor stands on a `,`, one more argument: the chains of the
/// arguments so far, and the index of the last one whose range holds
/// `goal`.
pub open spec fn arguments_from(
    ns: Seq<NodeView>,
    b: Seq<u8>,
    p: int,
    goal: Point,
    filled: Seq<Seq<ItemView>>,
    active: nat,
) -> (Seq<Seq<ItemView>>, nat, int)
    decreases ns.len() - p,
{
    if p < 0 || p >= ns.len() || kind_at(ns, p) != ","@ {
        (filled, active, p)
    } else {
        let (value, range, q) = argument_at(ns, b, p);
        let active2 = if in_range(goal, range) {
            filled.len()
        } else {
            active
        };
        if p < q < ns.len() {
            arguments_from(ns, b, q, goal, filled.push(value), active2)
        } else {
            (filled.push(value), active2, q)
        }
    }
}

/// The argument list at `c`, after the chain `prev`: the link for it, the
/// chain of the argument the cursor is in, and where the cursor stands
/// after.
pub open spec fn argument_list_at(ns: Seq<NodeView>, b: Seq<u8>, c: int, goal: Point, prev: Seq<ItemView>) -> (
    Option<Seq<ItemView>>,
    ItemView,
    int,
) {
    let (v0, r0, q) = argument_at(ns, b, down_pos(ns, 0, c));
    let (filled, active, q2) = arguments_from(ns, b, q, goal, seq![v0], 0);
    let item = ItemView::ArgumentList { prev, active_param: active, filled_params: filled, range: node_range(ns[c]) };
    (if active < filled.len() {
        Some(filled[active as int])
    } else {
        None
    }, item, q2)
}

/// What the node at `c` adds to the chain `acc` (an argument list starts
/// it anew), and where the cursor from the root stands after reading it.
pub open spec fn chain_at_node(ns: Seq<NodeView>, b: Seq<u8>, c: int, goal: Point, acc: Seq<ItemView>) -> (
    Seq<ItemView>,
    int,
) {
    let k = kind_at(ns, c);
    if k == "argument_list"@ {
        let (after, item, q2) = argument_list_at(ns, b, c, goal, acc);
        (
            seq![item] + match after {
                Some(a) => a,
                None => seq![],
            },
            up_pos(ns, 0, q2),
        )
    } else if k == "scoped_type_identifier"@ {
        (acc.push(name_item(ns, b, c)), c)
    } else if k == "template_expression"@ {
        let d = down_pos(ns, 0, c);
        (
            if kind_at(ns, d) == "method_invocation"@ {
                acc + invocation_items(ns, b, d)
            } else {
                acc
            },
            up_pos(ns, 0, d),
        )
    } else if k == "expression_statement"@ {
        let d = down_pos(ns, 0, c);
        (acc + value_items(ns, b, d), up_pos(ns, 0, d))
    } else if k == "return_statement"@ {
        let d = next_pos(ns, 0, down_pos(ns, 0, c));
        (acc + value_items(ns, b, d), up_pos(ns, 0, d))
    } else if k == "local_variable_declaration"@ {
        let d = next_pos(ns, 0, down_pos(ns, 0, c));
        if kind_at(ns, d) == "variable_declarator"@ {
            let e = next_pos(ns, 0, next_pos(ns, 0, down_pos(ns, 0, d)));
            (acc + value_items(ns, b, e), up_pos(ns, 0, up_pos(ns, 0, e)))
        } else {
            (acc, up_pos(ns, 0, d))
        }
    } else if k == "parenthesized_expression"@ {
        let d = next_pos(ns, 0, down_pos(ns, 0, c));
        let e = match child_for_point(ns, d, Point { row: goal.row, column: (goal.column - 3) as usize }) {
            Some(x) => x,
            None => d,
        };
        (acc + value_items(ns, b, e), up_pos(ns, 0, e))
    } else {
        (acc, c)
    }
}

/// Going down from the node at `c` at depth `level` toward `goal`, one
/// child that ends after it at a time, the chain that the nodes on the way
/// build; at most 200 levels.
pub open spec fn chain_from(ns: Seq<NodeView>, b: Seq<u8>, c: int, level: int, goal: Point, acc: Seq<ItemView>) -> Seq<
    ItemView,
>
    decreases 200 - level,
{
    if level < 0 || level >= 200 || c < 0 || c >= ns.len() {
        acc
    } else {
        let (acc2, c2) = chain_at_node(ns, b, c, goal, acc);
        match child_for_point(ns, c2, goal) {
            None => acc2,
            Some(n) => chain_from(ns, b, n, level + 1, goal, acc2),
        }
    }
}

/// Whether the same walk passes a parenthesized expression, where the
/// column three before the goal's is looked at.
pub open spec fn walk_meets_parens(ns: Seq<NodeView>, b: Seq<u8>, c: int, level: int, goal: Point) -> bool
    decreases 200 - level,
{
    if level < 0 || level >= 200 || c < 0 || c >= ns.len() {
        false
    } else if kind_at(ns, c) == "parenthesized_expression"@ {
        true
    } else {
        let c2 = chain_at_node(ns, b, c, goal, seq![]).1;
        match child_for_point(ns, c2, goal) {
            None => false,
            Some(n) => walk_meets_parens(ns, b, n, level + 1, goal),
        }
    }
}

/// The chain before `goal`, where it is not empty.
pub open spec fn spec_call_chain(ns: Seq<NodeView>, b: Seq<u8>, goal: Point) -> Option<Seq<ItemView>> {
    let out = chain_from(ns, b, 0, 0, goal, seq![]);
    if out.len() > 0 {
        Some(out)
    } else {
        None
    }
}

/// The range of a link.
pub open spec fn range_of(i: ItemView) -> Range {
    match i {
        ItemView::MethodCall { range, .. } => range,
        ItemView::FieldAccess { range, .. } => range,
        ItemView::Variable { range, .. } => range,
        ItemView::Class { range, .. } => range,
        ItemView::ClassOrVariable { range, .. } => range,
        ItemView::ArgumentList { range, .. } => range,
    }
}

/// The first link whose range holds `point`, or the first link where none
/// does.
pub open spec fn link_at(chain: Seq<ItemView>, point: Point) -> int {
    if exists|i: int| 0 <= i < chain.len() && in_range(point, range_of(#[trigger] chain[i])) {
        choose|i: int|
            0 <= i < chain.len() && in_range(point, range_of(#[trigger] chain[i])) && forall|j: int|
                0 <= j < i ==> !in_range(point, range_of(#[trigger] chain[j]))
    } else {
        0
    }
}


fn node_range_at(ns: &Vec<SyntaxNode>, c: usize) -> (r: Range)
    requires
        c < ns.len(),
    ensures
        r == node_range(nodes_view(ns@)[c as int]),
{
    assert(nodes_view(ns@)[c as int] == ns@[c as int]@);
    let n = &ns[c];
    Range {
        start_byte: n.span[0],
        end_byte: n.span[1],
        start_point: Point { row: n.span[2], column: n.span[3] },
        end_point: Point { row: n.span[4], column: n.span[5] },
    }
}

fn push_link(out: &mut Vec<CallItem>, x: CallItem)
    ensures
        chain_view(final(out)@) == chain_view(old(out)@).push(item_view(x)),
{
    let ghost before = out@;
    proof {
        lemma_chain_view_push(before, x);
    }
    out.push(x);
}

fn extend_links(out: &mut Vec<CallItem>, mut more: Vec<CallItem>)
    ensures
        chain_view(final(out)@) == chain_view(old(out)@) + chain_view(more@),
{
    let ghost before = out@;
    let ghost m = more@;
    out.append(&mut more);
    proof {
        lemma_chain_view_append(before, m);
    }
}

/// The name at `c` as a class or a variable, with its range.
pub fn class_or_variable(ns: &Vec<SyntaxNode>, bytes: &[u8], c: usize) -> (r: Option<CallItem>)
    requires
        c < ns.len(),
        well_placed(nodes_view(ns@), bytes@.len() as int),
    ensures
        r matches Some(x) && item_view(x) == name_item(nodes_view(ns@), bytes@, c as int),
{
    let var_name = text_or_empty_exec(ns, bytes, c);
    Some(CallItem::ClassOrVariable { name: var_name, range: node_range_at(ns, c) })
}

fn name_link(ns: &Vec<SyntaxNode>, bytes: &[u8], c: usize) -> (r: CallItem)
    requires
        c < ns.len(),
        well_placed(nodes_view(ns@), bytes@.len() as int),
    ensures
        item_view(r) == name_item(nodes_view(ns@), bytes@, c as int),
{
    CallItem::ClassOrVariable { name: text_or_empty_exec(ns, bytes, c), range: node_range_at(ns, c) }
}

/// The class of the object creation at `n` (see `creation_items`).
fn parse_object_creation(ns: &Vec<SyntaxNode>, bytes: &[u8], n: usize) -> (r: Vec<CallItem>)
    requires
        n < ns.len(),
        well_placed(nodes_view(ns@), bytes@.len() as int),
    ensures
        chain_view(r@) == creation_items(nodes_view(ns@), bytes@, n as int),
{
    let mut cursor = NodeCursor { root: n, pos: n };
    cursor.first_child(ns);
    cursor.first_child(ns);
    cursor.sibling(ns);
    let mut out: Vec<CallItem> = Vec::new();
    assert(chain_view(out@) =~= Seq::<ItemView>::empty());
    push_link(
        &mut out,
        CallItem::Class { name: text_or_empty_exec(ns, bytes, cursor.pos), range: node_range_at(ns, cursor.pos) },
    );
    assert(chain_view(out@) =~= creation_items(nodes_view(ns@), bytes@, n as int));
    out
}

/// The chain of the value at `p` (see `value_items`).
fn parse_value(ns: &Vec<SyntaxNode>, bytes: &[u8], p: usize) -> (r: Vec<CallItem>)
    requires
        p < ns.len(),
        well_placed(nodes_view(ns@), bytes@.len() as int),
    ensures
        chain_view(r@) == value_items(nodes_view(ns@), bytes@, p as int),
    decreases ns.len() - p, 2nat,
{
    let mut out: Vec<CallItem> = Vec::new();
    assert(chain_view(out@) =~= Seq::<ItemView>::empty());
    if kind_is(ns, p, "identifier") {
        push_link(&mut out, name_link(ns, bytes, p));
        assert(chain_view(out@) =~= seq![name_item(nodes_view(ns@), bytes@, p as int)]);
        out
    } else if kind_is(ns, p, "field_access") {
        parse_field_access(ns, bytes, p)
    } else if kind_is(ns, p, "method_invocation") {
        parse_method_invocation(ns, bytes, p)
    } else if kind_is(ns, p, "object_creation_expression") {
        parse_object_creation(ns, bytes, p)
    } else if kind_is(ns, p, "string_literal") {
        push_link(&mut out, CallItem::Class { name: "String".to_string(), range: node_range_at(ns, p) });
        assert(chain_view(out@) =~= seq![
            ItemView::Class { name: "String"@, range: node_range(nodes_view(ns@)[p as int]) },
        ]);
        out
    } else {
        out
    }
}

/// The chain of the method invocation at `n` (see `invocation_items`).
fn parse_method_invocation(ns: &Vec<SyntaxNode>, bytes: &[u8], n: usize) -> (r: Vec<CallItem>)
    requires
        n < ns.len(),
        well_placed(nodes_view(ns@), bytes@.len() as int),
    ensures
        chain_view(r@) == invocation_items(nodes_view(ns@), bytes@, n as int),
    decreases ns.len() - n, 1nat,
{
    let ghost nv = nodes_view(ns@);
    let mut cursor = NodeCursor { root: n, pos: n };
    let mut out: Vec<CallItem> = Vec::new();
    assert(chain_view(out@) =~= Seq::<ItemView>::empty());
    cursor.first_child(ns);
    let c = cursor.pos;
    if kind_is(ns, c, "field_access") {
        extend_links(&mut out, parse_field_access(ns, bytes, n));
        cursor.sibling(ns);
        cursor.sibling(ns);
        let method_name = text_or_empty_exec(ns, bytes, cursor.pos);
        push_link(&mut out, CallItem::MethodCall { name: method_name, range: node_range_at(ns, cursor.pos) });
        assert(chain_view(out@) =~= invocation_items(nv, bytes@, n as int));
    } else if kind_is(ns, c, "identifier") {
        push_link(&mut out, name_link(ns, bytes, c));
        cursor.sibling(ns);
        cursor.sibling(ns);
        let method_name = text_or_empty_exec(ns, bytes, cursor.pos);
        push_link(&mut out, CallItem::MethodCall { name: method_name, range: node_range_at(ns, cursor.pos) });
        assert(chain_view(out@) =~= invocation_items(nv, bytes@, n as int));
    } else if kind_is(ns, c, "method_invocation") && n < c {
        extend_links(&mut out, parse_method_invocation(ns, bytes, c));
        assert(chain_view(out@) =~= invocation_items(nv, bytes@, n as int));
    } else if kind_is(ns, c, "object_creation_expression") {
        extend_links(&mut out, parse_object_creation(ns, bytes, n));
        cursor.sibling(ns);
        cursor.sibling(ns);
        let method_name = text_or_empty_exec(ns, bytes, cursor.pos);
        push_link(&mut out, CallItem::MethodCall { name: method_name, range: node_range_at(ns, cursor.pos) });
        assert(chain_view(out@) =~= invocation_items(nv, bytes@, n as int));
    }
    out
}

/// The chain of the field access at `n` (see `access_items`).
fn parse_field_access(ns: &Vec<SyntaxNode>, bytes: &[u8], n: usize) -> (r: Vec<CallItem>)
    requires
        n < ns.len(),
        well_placed(nodes_view(ns@), bytes@.len() as int),
    ensures
        chain_view(r@) == access_items(nodes_view(ns@), bytes@, n as int),
    decreases ns.len() - n, 0nat,
{
    let ghost nv = nodes_view(ns@);
    let mut cursor = NodeCursor { root: n, pos: n };
    let mut out: Vec<CallItem> = Vec::new();
    assert(chain_view(out@) =~= Seq::<ItemView>::empty());
    cursor.first_child(ns);
    let c = cursor.pos;
    if kind_is(ns, c, "identifier") {
        push_link(&mut out, name_link(ns, bytes, c));
        cursor.sibling(ns);
        if cursor.sibling(ns) {
            let field_name = text_or_empty_exec(ns, bytes, cursor.pos);
            if !crate::text::str_eq(field_name.as_str(), "return") {
                push_link(&mut out, CallItem::FieldAccess { name: field_name, range: node_range_at(ns, cursor.pos) });
            }
        }
        assert(chain_view(out@) =~= access_items(nv, bytes@, n as int));
    } else if kind_is(ns, c, "string_literal") {
        push_link(&mut out, CallItem::Class { name: "String".to_string(), range: node_range_at(ns, c) });
        assert(chain_view(out@) =~= access_items(nv, bytes@, n as int));
    } else if kind_is(ns, c, "method_invocation") && n < c {
        extend_links(&mut out, parse_method_invocation(ns, bytes, c));
        cursor.sibling(ns);
        if cursor.sibling(ns) {
            let field_name = text_or_empty_exec(ns, bytes, cursor.pos);
            push_link(&mut out, CallItem::FieldAccess { name: field_name, range: node_range_at(ns, cursor.pos) });
        }
        assert(chain_view(out@) =~= access_items(nv, bytes@, n as int));
    } else if kind_is(ns, c, "field_access") && n < c {
        extend_links(&mut out, parse_field_access(ns, bytes, c));
        assert(chain_view(out@) =~= access_items(nv, bytes@, n as int));
    } else if kind_is(ns, c, "object_creation_expression") {
        extend_links(&mut out, parse_object_creation(ns, bytes, c));
        cursor.sibling(ns);
        cursor.sibling(ns);
        let field_name = text_or_empty_exec(ns, bytes, cursor.pos);
        push_link(&mut out, CallItem::FieldAccess { name: field_name, range: node_range_at(ns, cursor.pos) });
        assert(chain_view(out@) =~= access_items(nv, bytes@, n as int));
    }
    out
}


pub(crate) proof fn lemma_params_view_index(v: Seq<Vec<CallItem>>, i: int)
    requires
        0 <= i < v.len(),
    ensures
        params_view(v)[i] == chain_view(v[i]@),
        params_view(v).len() == v.len(),
    decreases v.len(),
{
    lemma_params_view_len(v);
    if i < v.len() - 1 {
        lemma_params_view_index(v.drop_last(), i);
    }
}

pub(crate) proof fn lemma_params_view_len(v: Seq<Vec<CallItem>>)
    ensures
        params_view(v).len() == v.len(),
    decreases v.len(),
{
    if v.len() > 0 {
        lemma_params_view_len(v.drop_last());
    }
}

/// One argument of an argument list: its range and its chain.
struct Argument {
    range: Option<Range>,
    value: Vec<CallItem>,
}

/// Reads the argument after the cursor (see `argument_at`).
fn parse_argument_list_argument(ns: &Vec<SyntaxNode>, bytes: &[u8], cursor: &mut NodeCursor) -> (r: Argument)
    requires
        old(cursor).pos < ns.len(),
        old(cursor).root == 0,
        well_placed(nodes_view(ns@), bytes@.len() as int),
    ensures
        final(cursor).root == 0,
        final(cursor).pos < ns.len(),
        ({
            let (v, range, q) = argument_at(nodes_view(ns@), bytes@, old(cursor).pos as int);
            &&& chain_view(r.value@) == v
            &&& r.range == Some(range)
            &&& final(cursor).pos == q
        }),
{
    cursor.sibling(ns);
    let q = cursor.pos;
    let mut range = node_range_at(ns, q);
    let value = parse_value(ns, bytes, q);
    if cursor.sibling(ns) {
        if kind_is(ns, cursor.pos, ",") || kind_is(ns, cursor.pos, ")") {
            let after = node_range_at(ns, cursor.pos);
            range = Range {
                start_byte: range.start_byte,
                end_byte: after.end_byte,
                start_point: range.start_point,
                end_point: after.end_point,
            };
        }
    }
    Argument { range: Some(range), value }
}

/// Reads the argument list at the cursor after the chain `out` (see
/// `argument_list_at`): the chain of the argument that `point` is in, and
/// the link for the list. Where the cursor cannot move on past a `,`, the
/// reading stops there.
pub fn parse_argument_list(
    out: &Vec<CallItem>,
    ns: &Vec<SyntaxNode>,
    bytes: &[u8],
    cursor: &mut NodeCursor,
    point: &Point,
) -> (r: (Option<Vec<CallItem>>, CallItem))
    requires
        old(cursor).pos < ns.len(),
        old(cursor).root == 0,
        well_placed(nodes_view(ns@), bytes@.len() as int),
    ensures
        final(cursor).root == 0,
        final(cursor).pos < ns.len(),
        ({
            let (after, item, q2) = argument_list_at(
                nodes_view(ns@),
                bytes@,
                old(cursor).pos as int,
                *point,
                chain_view(out@),
            );
            &&& final(cursor).pos == q2
            &&& item_view(r.1) == item
            &&& match after {
                Some(a) => r.0 matches Some(v) && chain_view(v@) == a,
                None => r.0 is None,
            }
        }),
{
    let ghost nv = nodes_view(ns@);
    let mut active_param: usize = 0;
    let mut current_param: usize = 0;
    let arg_prev = copy_chain(out);
    let arg_range = node_range_at(ns, cursor.pos);
    let mut filled_params: Vec<Vec<CallItem>> = Vec::new();
    cursor.first_child(ns);
    let first = parse_argument_list_argument(ns, bytes, cursor);
    let ghost v0 = chain_view(first.value@);
    let ghost fvec = first.value;
    filled_params.push(first.value);
    assert(params_view(filled_params@) =~= seq![v0]) by {
        assert(filled_params@ =~= seq![fvec]);
        assert(filled_params@.drop_last() =~= Seq::<Vec<CallItem>>::empty());
        assert(params_view(filled_params@.drop_last()) =~= Seq::<Seq<ItemView>>::empty());
        assert(filled_params@.last() == fvec);
    }
    if is_point_in_range(point, &first.range.unwrap()) {
        active_param = current_param;
    }
    let ghost start = cursor.pos as int;
    loop
        invariant_except_break
            arguments_from(nv, bytes@, start, *point, seq![v0], 0) == arguments_from(
                nv,
                bytes@,
                cursor.pos as int,
                *point,
                params_view(filled_params@),
                active_param as nat,
            ),
            0 <= start <= cursor.pos,
            filled_params@.len() <= cursor.pos - start + 1,
        invariant
            cursor.pos < ns.len(),
            cursor.root == 0,
            nv == nodes_view(ns@),
            well_placed(nodes_view(ns@), bytes@.len() as int),
            current_param + 1 == filled_params@.len(),
            active_param < filled_params@.len(),
        ensures
            arguments_from(nv, bytes@, start, *point, seq![v0], 0) == (
                params_view(filled_params@),
                active_param as nat,
                cursor.pos as int,
            ),
            active_param < filled_params@.len(),
        decreases ns.len() - cursor.pos,
    {
        let p = cursor.pos;
        if !kind_is(ns, p, ",") {
            proof {
                lemma_params_view_len(filled_params@);
            }
            break;
        }
        current_param = current_param + 1;
        let arg = parse_argument_list_argument(ns, bytes, cursor);
        let ghost before = filled_params@;
        proof {
            lemma_params_view_len(before);
        }
        let in_range = is_point_in_range(point, &arg.range.unwrap());
        filled_params.push(arg.value);
        assert(filled_params@.drop_last() =~= before);
        if in_range {
            active_param = current_param;
        }
        if !(p < cursor.pos) {
            proof {
                lemma_params_view_len(filled_params@);
            }
            break;
        }
    }
    proof {
        lemma_params_view_len(filled_params@);
    }
    let after = if active_param < filled_params.len() {
        proof {
            lemma_params_view_index(filled_params@, active_param as int);
        }
        Some(copy_chain(&filled_params[active_param]))
    } else {
        None
    };
    let value = CallItem::ArgumentList { prev: arg_prev, active_param, filled_params, range: arg_range };
    (after, value)
}


/// The chain before `point` in the file whose tree is `ns` (see
/// `spec_call_chain`).
pub fn get_call_chain(ns: &Vec<SyntaxNode>, bytes: &[u8], point: &Point) -> (r: Option<Vec<CallItem>>)
    requires
        well_placed(nodes_view(ns@), bytes@.len() as int),
        point.column >= 3 || !walk_meets_parens(nodes_view(ns@), bytes@, 0, 0, *point),
    ensures
        match spec_call_chain(nodes_view(ns@), bytes@, *point) {
            Some(items) => r matches Some(v) && chain_view(v@) == items,
            None => r is None,
        },
{
    let ghost nv = nodes_view(ns@);
    let mut cursor = NodeCursor { root: 0, pos: 0 };
    let mut level: usize = 0;
    let mut out: Vec<CallItem> = Vec::new();
    assert(chain_view(out@) =~= Seq::<ItemView>::empty());
    loop
        invariant_except_break
            chain_from(nv, bytes@, 0, 0, *point, seq![]) == chain_from(
                nv,
                bytes@,
                cursor.pos as int,
                level as int,
                *point,
                chain_view(out@),
            ),
            point.column >= 3 || !walk_meets_parens(nv, bytes@, cursor.pos as int, level as int, *point),
            level < 200,
        invariant
            cursor.pos < ns.len(),
            cursor.root == 0,
            nv == nodes_view(ns@),
            well_placed(nodes_view(ns@), bytes@.len() as int),
        ensures
            chain_from(nv, bytes@, 0, 0, *point, seq![]) == chain_view(out@),
        decreases 200 - level,
    {
        let c = cursor.pos;
        let ghost acc = chain_view(out@);
        assert(chain_at_node(nv, bytes@, c as int, *point, acc).1 == chain_at_node(nv, bytes@, c as int, *point, seq![]).1);
        if kind_is(ns, c, "argument_list") {
            let (after, value) = parse_argument_list(&out, ns, bytes, &mut cursor, point);
            out = Vec::new();
            assert(chain_view(out@) =~= Seq::<ItemView>::empty());
            push_link(&mut out, value);
            assert(chain_view(out@) =~= seq![item_view(value)]);
            if let Some(after) = after {
                extend_links(&mut out, after);
            } else {
                assert(chain_view(out@) =~= chain_view(out@) + Seq::<ItemView>::empty());
            }
            cursor.parent(ns);
        } else if kind_is(ns, c, "scoped_type_identifier") {
            push_link(&mut out, name_link(ns, bytes, c));
        } else if kind_is(ns, c, "template_expression") {
            cursor.first_child(ns);
            if kind_is(ns, cursor.pos, "method_invocation") {
                extend_links(&mut out, parse_method_invocation(ns, bytes, cursor.pos));
            }
            cursor.parent(ns);
        } else if kind_is(ns, c, "expression_statement") {
            cursor.first_child(ns);
            extend_links(&mut out, parse_value(ns, bytes, cursor.pos));
            cursor.parent(ns);
        } else if kind_is(ns, c, "return_statement") {
            cursor.first_child(ns);
            cursor.sibling(ns);
            extend_links(&mut out, parse_value(ns, bytes, cursor.pos));
            cursor.parent(ns);
        } else if kind_is(ns, c, "local_variable_declaration") {
            cursor.first_child(ns);
            cursor.sibling(ns);
            if kind_is(ns, cursor.pos, "variable_declarator") {
                cursor.first_child(ns);
                cursor.sibling(ns);
                cursor.sibling(ns);
                extend_links(&mut out, parse_value(ns, bytes, cursor.pos));
                cursor.parent(ns);
            }
            cursor.parent(ns);
        } else if kind_is(ns, c, "parenthesized_expression") {
            cursor.first_child(ns);
            cursor.sibling(ns);
            let inner = Point { row: point.row, column: point.column - 3 };
            if let Some(k) = goto_first_child_for_point(ns, cursor.pos, &inner) {
                cursor.pos = k;
            }
            extend_links(&mut out, parse_value(ns, bytes, cursor.pos));
            cursor.parent(ns);
        }
        let n = goto_first_child_for_point(ns, cursor.pos, point);
        level += 1;
        match n {
            None => break,
            Some(k) => {
                if level >= 200 {
                    assert(chain_from(nv, bytes@, k as int, level as int, *point, chain_view(out@)) == chain_view(out@));
                    break;
                }
                cursor.pos = k;
            },
        }
    }
    proof {
        lemma_chain_view_len(out@);
    }
    if out.len() > 0 {
        Some(out)
    } else {
        None
    }
}

pub(crate) fn range_at(i: &CallItem) -> (r: Range)
    ensures
        r == range_of(item_view(*i)),
{
    match i {
        CallItem::MethodCall { range, .. } => *range,
        CallItem::FieldAccess { range, .. } => *range,
        CallItem::Variable { range, .. } => *range,
        CallItem::Class { range, .. } => *range,
        CallItem::ClassOrVariable { range, .. } => *range,
        CallItem::ArgumentList { range, .. } => *range,
    }
}

/// The first link whose range holds `point` (the first link where none
/// does), and the chain up to and with it.
pub fn validate<'a>(call_chain: &'a Vec<CallItem>, point: &'a Point) -> (r: Option<(usize, &'a [CallItem])>)
    requires
        call_chain@.len() > 0,
    ensures
        r matches Some((i, s)) && i == link_at(chain_view(call_chain@), *point) && chain_view(s@) == chain_view(
            call_chain@,
        ).subrange(0, i + 1),
{
    let ghost cv = chain_view(call_chain@);
    proof {
        lemma_chain_view_len(call_chain@);
    }
    let mut item: usize = 0;
    let mut k: usize = 0;
    let mut found = false;
    while k < call_chain.len() && !found
        invariant
            k <= call_chain@.len(),
            cv == chain_view(call_chain@),
            cv.len() == call_chain@.len(),
            !found ==> forall|j: int| 0 <= j < k ==> !in_range(*point, range_of(#[trigger] cv[j])),
            !found ==> item == 0,
            found ==> item < cv.len() && in_range(*point, range_of(cv[item as int])) && forall|j: int|
                0 <= j < item ==> !in_range(*point, range_of(#[trigger] cv[j])),
        decreases call_chain@.len() - k + if found {
            0int
        } else {
            1int
        },
    {
        proof {
            lemma_chain_view_index(call_chain@, k as int);
        }
        if is_point_in_range(point, &range_at(&call_chain[k])) {
            item = k;
            found = true;
        } else {
            k += 1;
        }
    }
    proof {
        if found {
            let w = item as int;
            assert(0 <= w < cv.len() && in_range(*point, range_of(cv[w])));
            let i = choose|i: int|
                0 <= i < cv.len() && in_range(*point, range_of(#[trigger] cv[i])) && forall|j: int|
                    0 <= j < i ==> !in_range(*point, range_of(#[trigger] cv[j]));
            assert(0 <= w < cv.len() && in_range(*point, range_of(cv[w])) && forall|j: int|
                0 <= j < w ==> !in_range(*point, range_of(#[trigger] cv[j])));
            if i < w {
                assert(!in_range(*point, range_of(cv[i])));
            }
            if w < i {
                assert(!in_range(*point, range_of(cv[w])));
            }
            assert(link_at(cv, *point) == item);
        } else {
            assert(!exists|i: int| 0 <= i < cv.len() && in_range(*point, range_of(#[trigger] cv[i])));
        }
    }
    let relevat = vstd::slice::slice_subrange(call_chain.as_slice(), 0, item + 1);
    proof {
        lemma_chain_view_subrange(call_chain@, item + 1);
    }
    Some((item, relevat))
}

} // verus!
