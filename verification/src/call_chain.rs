//! What stands before the cursor in a Java document, read from its syntax
//! tree as a chain of calls: the variable or class it starts from, then
//! the methods called and the fields read on it.
use vstd::prelude::*;
use vstd::utf8::encode_utf8;

use crate::document::Document;
use crate::java::syntax::{
    down_pos, kind_at, kind_is, next_pos, nodes_view, up_pos, well_placed, NodeCursor, NodeView, SyntaxNode,
};
use crate::java::{text_or_empty, text_or_empty_exec};
use crate::text::{
    chars_of, split_once, split_once_exec, string_of, trim, trim_end_matches, trim_end_matches_exec, trim_exec,
};
use crate::treesitter::{child_for_point, goto_first_child_for_point, Point};

verus! {

/// One link of a call chain.
#[derive(Debug, PartialEq)]
pub enum CallItem {
    MethodCall(String),
    FieldAccess(String),
    Variable(String),
    Class(String),
}

pub enum CallView {
    MethodCall(Seq<char>),
    FieldAccess(Seq<char>),
    Variable(Seq<char>),
    Class(Seq<char>),
}

impl View for CallItem {
    type V = CallView;

    open spec fn view(&self) -> CallView {
        match self {
            CallItem::MethodCall(s) => CallView::MethodCall(s@),
            CallItem::FieldAccess(s) => CallView::FieldAccess(s@),
            CallItem::Variable(s) => CallView::Variable(s@),
            CallItem::Class(s) => CallView::Class(s@),
        }
    }
}

pub open spec fn items_view(v: Seq<CallItem>) -> Seq<CallView> {
    v.map_values(|i: CallItem| i@)
}

/// Whether `c` is an uppercase letter.
pub uninterp spec fn spec_is_uppercase(c: char) -> bool;

/// Calls `char::is_uppercase`, which tests Unicode's Uppercase property;
/// what it gives is named `spec_is_uppercase`.
#[verifier::external_body]
fn is_uppercase(c: char) -> (b: bool)
    ensures
        b == spec_is_uppercase(c),
{
    c.is_uppercase()
}

/// A name that starts with an uppercase letter names a class, any other
/// name a variable; an empty name neither.
pub open spec fn spec_class_or_variable(name: Seq<char>) -> Option<CallView> {
    if name.len() == 0 {
        None
    } else if spec_is_uppercase(name[0]) {
        Some(CallView::Class(name))
    } else {
        Some(CallView::Variable(name))
    }
}

pub open spec fn opt_item(o: Option<CallView>) -> Seq<CallView> {
    match o {
        Some(x) => seq![x],
        None => seq![],
    }
}

/// The chain of a method invocation at `n`: a field access before it, or
/// the variable or class it is called on, then the method; or the chain of
/// the invocation it starts with.
pub open spec fn invocation_items(ns: Seq<NodeView>, b: Seq<u8>, n: int) -> Seq<CallView>
    decreases ns.len() - n, 1nat,
{
    if n < 0 || n >= ns.len() {
        seq![]
    } else {
        let c = down_pos(ns, n, n);
        let k = kind_at(ns, c);
        if k == "field_access"@ {
            let m = next_pos(ns, n, next_pos(ns, n, c));
            access_items(ns, b, n) + seq![CallView::MethodCall(text_or_empty(ns, b, m))]
        } else if k == "identifier"@ {
            let m = next_pos(ns, n, next_pos(ns, n, c));
            opt_item(spec_class_or_variable(text_or_empty(ns, b, c))) + seq![
                CallView::MethodCall(text_or_empty(ns, b, m)),
            ]
        } else if k == "method_invocation"@ && n < c < ns.len() {
            invocation_items(ns, b, c)
        } else {
            seq![]
        }
    }
}

/// The chain of a field access at `n`: the variable or class, then the
/// field unless it is `return`; or the chain of the invocation before it,
/// then the field; or the chain of the field access it starts with.
pub open spec fn access_items(ns: Seq<NodeView>, b: Seq<u8>, n: int) -> Seq<CallView>
    decreases ns.len() - n, 0nat,
{
    if n < 0 || n >= ns.len() {
        seq![]
    } else {
        let c = down_pos(ns, n, n);
        let k = kind_at(ns, c);
        if k == "identifier"@ {
            let f = text_or_empty(ns, b, next_pos(ns, n, next_pos(ns, n, c)));
            opt_item(spec_class_or_variable(text_or_empty(ns, b, c))) + if f != "return"@ {
                seq![CallView::FieldAccess(f)]
            } else {
                seq![]
            }
        } else if k == "method_invocation"@ && n < c < ns.len() {
            let f = next_pos(ns, n, next_pos(ns, n, c));
            invocation_items(ns, b, c) + seq![CallView::FieldAccess(text_or_empty(ns, b, f))]
        } else if k == "field_access"@ && n < c < ns.len() {
            access_items(ns, b, c)
        } else {
            seq![]
        }
    }
}

/// The chain of a value: an identifier, a field access or a method
/// invocation.
pub open spec fn value_items(ns: Seq<NodeView>, b: Seq<u8>, p: int) -> Seq<CallView> {
    let k = kind_at(ns, p);
    if k == "identifier"@ {
        opt_item(spec_class_or_variable(text_or_empty(ns, b, p)))
    } else if k == "field_access"@ {
        access_items(ns, b, p)
    } else if k == "method_invocation"@ {
        invocation_items(ns, b, p)
    } else {
        seq![]
    }
}

/// The argument after the cursor at `p`: an identifier counts only when a
/// `)` or an error follows it; any other value gives its chain. Also where
/// the cursor stands after.
pub open spec fn argument_at(ns: Seq<NodeView>, b: Seq<u8>, p: int) -> (Seq<CallView>, int) {
    let q = next_pos(ns, 0, p);
    if kind_at(ns, q) == "identifier"@ {
        let r = next_pos(ns, 0, q);
        if kind_at(ns, r) == ")"@ || kind_at(ns, r) == "ERROR"@ {
            (opt_item(spec_class_or_variable(text_or_empty(ns, b, q))), r)
        } else {
            (seq![], r)
        }
    } else {
        (value_items(ns, b, q), q)
    }
}

/// While the cursor stands on a `,`, the argument after it, after `acc`.
pub open spec fn arguments_from(ns: Seq<NodeView>, b: Seq<u8>, p: int, acc: Seq<CallView>) -> (Seq<CallView>, int)
    decreases ns.len() - p,
{
    if p < 0 || p >= ns.len() || kind_at(ns, p) != ","@ {
        (acc, p)
    } else {
        let (items, q) = argument_at(ns, b, p);
        if p < q < ns.len() {
            arguments_from(ns, b, q, acc + items)
        } else {
            (acc + items, q)
        }
    }
}

/// The name in a scoped type identifier's text: its first line, trimmed,
/// without trailing dots; a text without a line break gives none.
pub open spec fn scoped_name(t: Seq<char>) -> Seq<char> {
    let first = match split_once(t, seq!['\n']) {
        Some((a, _)) => a,
        None => seq![],
    };
    trim_end_matches(trim(first), seq!['.'])
}

/// What the node at `c` adds to the chain `acc` (an argument list starts
/// it anew), and where the cursor from the root stands after reading it.
pub open spec fn chain_at_node(ns: Seq<NodeView>, b: Seq<u8>, c: int, goal: Point, acc: Seq<CallView>) -> (
    Seq<CallView>,
    int,
) {
    let k = kind_at(ns, c);
    if k == "argument_list"@ {
        let (first, q) = argument_at(ns, b, down_pos(ns, 0, c));
        let (items, q2) = arguments_from(ns, b, q, first);
        (items, up_pos(ns, 0, q2))
    } else if k == "scoped_type_identifier"@ {
        (acc + opt_item(spec_class_or_variable(scoped_name(text_or_empty(ns, b, c)))), c)
    } else if k == "template_expression"@ {
        let d = down_pos(ns, 0, c);
        (
            if kind_at(ns, d) == "method_invocation"@ {
                acc + invocation_items(ns, b, d)
            } else {
                acc
            },
            up_pos(ns, 0, d),
        )
    } else if k == "expression_statement"@ {
        let d = down_pos(ns, 0, c);
        (acc + value_items(ns, b, d), up_pos(ns, 0, d))
    } else if k == "return_statement"@ {
        let d = next_pos(ns, 0, down_pos(ns, 0, c));
        (acc + value_items(ns, b, d), up_pos(ns, 0, d))
    } else if k == "local_variable_declaration"@ {
        let d = next_pos(ns, 0, down_pos(ns, 0, c));
        if kind_at(ns, d) == "variable_declarator"@ {
            let e = next_pos(ns, 0, next_pos(ns, 0, down_pos(ns, 0, d)));
            (acc + value_items(ns, b, e), up_pos(ns, 0, up_pos(ns, 0, e)))
        } else {
            (acc, up_pos(ns, 0, d))
        }
    } else if k == "parenthesized_expression"@ {
        let d = next_pos(ns, 0, down_pos(ns, 0, c));
        let e = match child_for_point(ns, d, Point { row: goal.row, column: (goal.column - 3) as usize }) {
            Some(x) => x,
            None => d,
        };
        (acc + value_items(ns, b, e), up_pos(ns, 0, e))
    } else {
        (acc, c)
    }
}

/// Going down from the node at `c` at depth `level` toward `goal`, one
/// child that ends after it at a time, the chain that the nodes on the way
/// build; at most 200 levels.
pub open spec fn chain_from(ns: Seq<NodeView>, b: Seq<u8>, c: int, level: int, goal: Point, acc: Seq<CallView>) -> Seq<
    CallView,
>
    decreases 200 - level,
{
    if level < 0 || level >= 200 || c < 0 || c >= ns.len() {
        acc
    } else {
        let (acc2, c2) = chain_at_node(ns, b, c, goal, acc);
        match child_for_point(ns, c2, goal) {
            None => acc2,
            Some(n) => chain_from(ns, b, n, level + 1, goal, acc2),
        }
    }
}

/// Whether the same walk passes a parenthesized expression, where the
/// column three before the goal's is looked at.
pub open spec fn walk_meets_parens(ns: Seq<NodeView>, b: Seq<u8>, c: int, level: int, goal: Point) -> bool
    decreases 200 - level,
{
    if level < 0 || level >= 200 || c < 0 || c >= ns.len() {
        false
    } else if kind_at(ns, c) == "parenthesized_expression"@ {
        true
    } else {
        let c2 = chain_at_node(ns, b, c, goal, seq![]).1;
        match child_for_point(ns, c2, goal) {
            None => false,
            Some(n) => walk_meets_parens(ns, b, n, level + 1, goal),
        }
    }
}

/// The chain before `goal`, where it is not empty.
pub open spec fn spec_call_chain(ns: Seq<NodeView>, b: Seq<u8>, goal: Point) -> Option<Seq<CallView>> {
    let out = chain_from(ns, b, 0, 0, goal, seq![]);
    if out.len() > 0 {
        Some(out)
    } else {
        None
    }
}


/// A class or a variable by the first letter of `var_name` (see
/// `spec_class_or_variable`).
pub fn class_or_variable(var_name: String) -> (r: Option<CallItem>)
    ensures
        match spec_class_or_variable(var_name@) {
            Some(c) => r matches Some(x) && x@ == c,
            None => r is None,
        },
{
    let v = chars_of(var_name.as_str());
    if v.len() == 0 {
        return None;
    }
    if is_uppercase(v[0]) {
        Some(CallItem::Class(var_name))
    } else {
        Some(CallItem::Variable(var_name))
    }
}

fn push_opt(out: &mut Vec<CallItem>, o: Option<CallItem>)
    ensures
        items_view(final(out)@) == items_view(old(out)@) + opt_item(match o {
            Some(x) => Some(x@),
            None => None,
        }),
{
    let ghost before = out@;
    match o {
        Some(x) => {
            let ghost xv = x@;
            out.push(x);
            assert(items_view(out@) =~= items_view(before) + seq![xv]);
        },
        None => {
            assert(items_view(out@) =~= items_view(before) + Seq::<CallView>::empty());
        },
    }
}

fn push_item(out: &mut Vec<CallItem>, x: CallItem)
    ensures
        items_view(final(out)@) == items_view(old(out)@) + seq![x@],
{
    let ghost before = out@;
    let ghost xv = x@;
    out.push(x);
    assert(items_view(out@) =~= items_view(before) + seq![xv]);
}

fn extend_items(out: &mut Vec<CallItem>, mut more: Vec<CallItem>)
    ensures
        items_view(final(out)@) == items_view(old(out)@) + items_view(more@),
{
    let ghost before = out@;
    let ghost m = more@;
    out.append(&mut more);
    assert(items_view(out@) =~= items_view(before) + items_view(m));
}

/// The chain of the method invocation at `n` (see `invocation_items`).
fn parse_method_invocation(ns: &Vec<SyntaxNode>, bytes: &[u8], n: usize) -> (r: Vec<CallItem>)
    requires
        n < ns.len(),
        well_placed(nodes_view(ns@), bytes@.len() as int),
    ensures
        items_view(r@) == invocation_items(nodes_view(ns@), bytes@, n as int),
    decreases ns.len() - n, 1nat,
{
    let mut cursor = NodeCursor { root: n, pos: n };
    let mut out: Vec<CallItem> = Vec::new();
    assert(items_view(out@) =~= Seq::<CallView>::empty());
    cursor.first_child(ns);
    let c = cursor.pos;
    if kind_is(ns, c, "field_access") {
        extend_items(&mut out, parse_field_access(ns, bytes, n));
        cursor.sibling(ns);
        cursor.sibling(ns);
        let method_name = text_or_empty_exec(ns, bytes, cursor.pos);
        push_item(&mut out, CallItem::MethodCall(method_name));
    } else if kind_is(ns, c, "identifier") {
        let var_name = text_or_empty_exec(ns, bytes, c);
        push_opt(&mut out, class_or_variable(var_name));
        cursor.sibling(ns);
        cursor.sibling(ns);
        let method_name = text_or_empty_exec(ns, bytes, cursor.pos);
        push_item(&mut out, CallItem::MethodCall(method_name));
    } else if kind_is(ns, c, "method_invocation") && n < c {
        extend_items(&mut out, parse_method_invocation(ns, bytes, c));
    }
    out
}

/// The chain of the field access at `n` (see `access_items`).
fn parse_field_access(ns: &Vec<SyntaxNode>, bytes: &[u8], n: usize) -> (r: Vec<CallItem>)
    requires
        n < ns.len(),
        well_placed(nodes_view(ns@), bytes@.len() as int),
    ensures
        items_view(r@) == access_items(nodes_view(ns@), bytes@, n as int),
    decreases ns.len() - n, 0nat,
{
    let mut cursor = NodeCursor { root: n, pos: n };
    let mut out: Vec<CallItem> = Vec::new();
    assert(items_view(out@) =~= Seq::<CallView>::empty());
    cursor.first_child(ns);
    let c = cursor.pos;
    if kind_is(ns, c, "identifier") {
        let var_name = text_or_empty_exec(ns, bytes, c);
        cursor.sibling(ns);
        cursor.sibling(ns);
        let field_name = text_or_empty_exec(ns, bytes, cursor.pos);
        push_opt(&mut out, class_or_variable(var_name));
        if !crate::text::str_eq(field_name.as_str(), "return") {
            push_item(&mut out, CallItem::FieldAccess(field_name));
        } else {
            assert(items_view(out@) =~= items_view(out@) + Seq::<CallView>::empty());
        }
    } else if kind_is(ns, c, "method_invocation") && n < c {
        extend_items(&mut out, parse_method_invocation(ns, bytes, c));
        cursor.sibling(ns);
        cursor.sibling(ns);
        let field_name = text_or_empty_exec(ns, bytes, cursor.pos);
        push_item(&mut out, CallItem::FieldAccess(field_name));
    } else if kind_is(ns, c, "field_access") && n < c {
        extend_items(&mut out, parse_field_access(ns, bytes, c));
    }
    out
}

/// The chain of the value at `p` (see `value_items`).
fn parse_value(ns: &Vec<SyntaxNode>, bytes: &[u8], p: usize) -> (r: Vec<CallItem>)
    requires
        p < ns.len(),
        well_placed(nodes_view(ns@), bytes@.len() as int),
    ensures
        items_view(r@) == value_items(nodes_view(ns@), bytes@, p as int),
{
    let mut out: Vec<CallItem> = Vec::new();
    assert(items_view(out@) =~= Seq::<CallView>::empty());
    if kind_is(ns, p, "identifier") {
        push_opt(&mut out, class_or_variable(text_or_empty_exec(ns, bytes, p)));
        out
    } else if kind_is(ns, p, "field_access") {
        parse_field_access(ns, bytes, p)
    } else if kind_is(ns, p, "method_invocation") {
        parse_method_invocation(ns, bytes, p)
    } else {
        out
    }
}

/// Reads the argument after the cursor (see `argument_at`).
fn parse_argument_list_argument(ns: &Vec<SyntaxNode>, bytes: &[u8], cursor: &mut NodeCursor) -> (r: Vec<CallItem>)
    requires
        old(cursor).pos < ns.len(),
        old(cursor).root == 0,
        well_placed(nodes_view(ns@), bytes@.len() as int),
    ensures
        final(cursor).root == 0,
        final(cursor).pos < ns.len(),
        argument_at(nodes_view(ns@), bytes@, old(cursor).pos as int) == (items_view(r@), final(cursor).pos as int),
{
    let mut out: Vec<CallItem> = Vec::new();
    assert(items_view(out@) =~= Seq::<CallView>::empty());
    cursor.sibling(ns);
    if kind_is(ns, cursor.pos, "identifier") {
        let identifier = text_or_empty_exec(ns, bytes, cursor.pos);
        cursor.sibling(ns);
        if kind_is(ns, cursor.pos, ")") || kind_is(ns, cursor.pos, "ERROR") {
            push_opt(&mut out, class_or_variable(identifier));
        }
        out
    } else {
        parse_value(ns, bytes, cursor.pos)
    }
}

/// Reads the argument list at the cursor: the first argument, then one
/// after each `,`; where the cursor cannot move on past a `,`, the reading
/// stops there.
fn parse_argument_list(ns: &Vec<SyntaxNode>, bytes: &[u8], cursor: &mut NodeCursor) -> (r: Vec<CallItem>)
    requires
        old(cursor).pos < ns.len(),
        old(cursor).root == 0,
        well_placed(nodes_view(ns@), bytes@.len() as int),
    ensures
        final(cursor).root == 0,
        final(cursor).pos < ns.len(),
        ({
            let (first, q) = argument_at(nodes_view(ns@), bytes@, down_pos(nodes_view(ns@), 0, old(cursor).pos as int));
            let (items, q2) = arguments_from(nodes_view(ns@), bytes@, q, first);
            &&& items_view(r@) == items
            &&& final(cursor).pos == up_pos(nodes_view(ns@), 0, q2)
        }),
{
    let ghost nv = nodes_view(ns@);
    cursor.first_child(ns);
    let mut out = parse_argument_list_argument(ns, bytes, cursor);
    let ghost start = cursor.pos as int;
    let ghost acc0 = items_view(out@);
    loop
        invariant_except_break
            arguments_from(nv, bytes@, start, acc0) == arguments_from(nv, bytes@, cursor.pos as int, items_view(out@)),
        invariant
            cursor.pos < ns.len(),
            cursor.root == 0,
            nv == nodes_view(ns@),
            well_placed(nodes_view(ns@), bytes@.len() as int),
        ensures
            arguments_from(nv, bytes@, start, acc0) == (items_view(out@), cursor.pos as int),
        decreases ns.len() - cursor.pos,
    {
        let p = cursor.pos;
        if !kind_is(ns, p, ",") {
            break;
        }
        let more = parse_argument_list_argument(ns, bytes, cursor);
        extend_items(&mut out, more);
        if !(p < cursor.pos) {
            break;
        }
    }
    cursor.parent(ns);
    out
}

/// The name in a scoped type identifier's text (see `scoped_name`).
fn scoped_name_exec(t: &str) -> (r: String)
    ensures
        r@ == scoped_name(t@),
{
    let v = chars_of(t);
    let nl = chars_of("\n");
    proof {
        reveal_strlit("\n");
    }
    assert(nl@ =~= seq!['\n']);
    let first = match split_once_exec(&v, &nl) {
        Some((a, _)) => a,
        None => Vec::new(),
    };
    let trimmed = trim_exec(&first);
    let ts = string_of(&trimmed, 0, trimmed.len());
    assert(trimmed@.subrange(0, trimmed@.len() as int) =~= trimmed@);
    let r = trim_end_matches_exec(ts.as_str(), ".");
    proof {
        reveal_strlit(".");
    }
    assert(r@ == scoped_name(t@)) by {
        assert(".".view() =~= seq!['.']);
        if split_once(v@, nl@) is None {
            assert(first@ =~= Seq::<char>::empty());
        }
    }
    r
}

/// The chain before `point` in the file whose tree is `ns` (see
/// `spec_call_chain`).
pub fn call_chain_in_tree(ns: &Vec<SyntaxNode>, bytes: &[u8], point: &Point) -> (r: Option<Vec<CallItem>>)
    requires
        well_placed(nodes_view(ns@), bytes@.len() as int),
        point.column >= 3 || !walk_meets_parens(nodes_view(ns@), bytes@, 0, 0, *point),
    ensures
        match spec_call_chain(nodes_view(ns@), bytes@, *point) {
            Some(items) => r matches Some(v) && items_view(v@) == items,
            None => r is None,
        },
{
    let ghost nv = nodes_view(ns@);
    let mut cursor = NodeCursor { root: 0, pos: 0 };
    let mut level: usize = 0;
    let mut out: Vec<CallItem> = Vec::new();
    assert(items_view(out@) =~= Seq::<CallView>::empty());
    loop
        invariant_except_break
            chain_from(nv, bytes@, 0, 0, *point, seq![]) == chain_from(
                nv,
                bytes@,
                cursor.pos as int,
                level as int,
                *point,
                items_view(out@),
            ),
            point.column >= 3 || !walk_meets_parens(nv, bytes@, cursor.pos as int, level as int, *point),
            level < 200,
        invariant
            cursor.pos < ns.len(),
            cursor.root == 0,
            nv == nodes_view(ns@),
            well_placed(nodes_view(ns@), bytes@.len() as int),
        ensures
            chain_from(nv, bytes@, 0, 0, *point, seq![]) == items_view(out@),
        decreases 200 - level,
    {
        let c = cursor.pos;
        let ghost acc = items_view(out@);
        assert(chain_at_node(nv, bytes@, c as int, *point, acc).1 == chain_at_node(nv, bytes@, c as int, *point, seq![]).1);
        if kind_is(ns, c, "argument_list") {
            out = parse_argument_list(ns, bytes, &mut cursor);
        } else if kind_is(ns, c, "scoped_type_identifier") {
            let l = text_or_empty_exec(ns, bytes, c);
            let name = scoped_name_exec(l.as_str());
            push_opt(&mut out, class_or_variable(name));
        } else if kind_is(ns, c, "template_expression") {
            cursor.first_child(ns);
            if kind_is(ns, cursor.pos, "method_invocation") {
                extend_items(&mut out, parse_method_invocation(ns, bytes, cursor.pos));
            }
            cursor.parent(ns);
        } else if kind_is(ns, c, "expression_statement") {
            cursor.first_child(ns);
            extend_items(&mut out, parse_value(ns, bytes, cursor.pos));
            cursor.parent(ns);
        } else if kind_is(ns, c, "return_statement") {
            cursor.first_child(ns);
            cursor.sibling(ns);
            extend_items(&mut out, parse_value(ns, bytes, cursor.pos));
            cursor.parent(ns);
        } else if kind_is(ns, c, "local_variable_declaration") {
            cursor.first_child(ns);
            cursor.sibling(ns);
            if kind_is(ns, cursor.pos, "variable_declarator") {
                cursor.first_child(ns);
                cursor.sibling(ns);
                cursor.sibling(ns);
                extend_items(&mut out, parse_value(ns, bytes, cursor.pos));
                cursor.parent(ns);
            }
            cursor.parent(ns);
        } else if kind_is(ns, c, "parenthesized_expression") {
            cursor.first_child(ns);
            cursor.sibling(ns);
            let inner = Point { row: point.row, column: point.column - 3 };
            if let Some(k) = goto_first_child_for_point(ns, cursor.pos, &inner) {
                cursor.pos = k;
            }
            extend_items(&mut out, parse_value(ns, bytes, cursor.pos));
            cursor.parent(ns);
        }
        let n = goto_first_child_for_point(ns, cursor.pos, point);
        level += 1;
        match n {
            None => break,
            Some(k) => {
                if level >= 200 {
                    assert(chain_from(nv, bytes@, k as int, level as int, *point, items_view(out@)) == items_view(out@));
                    break;
                }
                cursor.pos = k;
            },
        }
    }
    if out.len() > 0 {
        Some(out)
    } else {
        None
    }
}

/// The chain before `point` in `document` (see `spec_call_chain`).
pub fn get_call_chain(document: &Document, point: &Point) -> (r: Option<Vec<CallItem>>)
    requires
        well_placed(nodes_view(document.tree@), encode_utf8(document.str_data@).len() as int),
        point.column >= 3 || !walk_meets_parens(
            nodes_view(document.tree@),
            encode_utf8(document.str_data@),
            0,
            0,
            *point,
        ),
    ensures
        match spec_call_chain(nodes_view(document.tree@), encode_utf8(document.str_data@), *point) {
            Some(items) => r matches Some(v) && items_view(v@) == items,
            None => r is None,
        },
{
    call_chain_in_tree(&document.tree, document.as_bytes(), point)
}

} // verus!
