//! The variables and methods that can be seen from a place in a Java file,
//! read from its syntax tree, and the type of a variable read from its
//! declared text.
use vstd::prelude::*;

use crate::document::Document;
use crate::dto::{JType, JTypeView};
use vstd::utf8::encode_utf8;
use crate::java::syntax::{
    down_pos, kind_at, kind_is, next_pos, nodes_view, sibling, up_pos, well_placed,
    NodeCursor, NodeView, SyntaxNode,
};
use crate::java::{text_or_empty, text_or_empty_exec};
use crate::text::{chars_of, ends_with, ends_with_exec, seg_eq, string_of};
use crate::treesitter::{child_for_point, goto_first_child_for_point, Point, Range};

verus! {

/// `void` and `int` are those types, a text ending in `[]` is an array of
/// the type before the brackets, and any other text names a class.
pub open spec fn var_jtype(ty: Seq<char>) -> JTypeView
    decreases ty.len(),
{
    if ty == "void"@ {
        JTypeView::Void
    } else if ty == "int"@ {
        JTypeView::Int
    } else if ends_with(ty, "[]"@) && ty.len() >= 2 {
        JTypeView::Array(Box::new(var_jtype(ty.subrange(0, ty.len() - 2))))
    } else {
        JTypeView::Class(ty)
    }
}

fn parse_jtype_chars(v: &Vec<char>, n: usize) -> (r: JType)
    requires
        n <= v.len(),
    ensures
        r@ == var_jtype(v@.subrange(0, n as int)),
    decreases n,
{
    let brackets = chars_of("[]");
    if seg_eq(v, 0, n, "void") {
        JType::Void
    } else if seg_eq(v, 0, n, "int") {
        JType::Int
    } else {
        let head = crate::text::copy_range(v, 0, n);
        if ends_with_exec(&head, &brackets) && n >= 2 {
            proof {
                assert(v@.subrange(0, n as int).subrange(0, n - 2) =~= v@.subrange(0, n - 2));
            }
            let inner = parse_jtype_chars(v, n - 2);
            let r = JType::Array(Box::new(inner));
            assert(r@ == JTypeView::Array(Box::new(inner@)));
            r
        } else {
            JType::Class(string_of(v, 0, n))
        }
    }
}

/// The type that a variable's declared type text stands for (see `var_jtype`).
pub fn parse_jtype(ty: String) -> (r: JType)
    ensures
        r@ == var_jtype(ty@),
{
    let v = chars_of(ty.as_str());
    assert(v@.subrange(0, v@.len() as int) =~= v@);
    parse_jtype_chars(&v, v.len())
}


/// A variable, or a method, seen from a place in a file: how deep in the
/// tree it was found, its type, its name and the range of its name.
#[derive(Debug, PartialEq)]
pub struct LocalVariable {
    pub level: usize,
    pub jtype: JType,
    pub name: String,
    pub is_fun: bool,
    pub range: Range,
}

pub struct VarView {
    pub level: int,
    pub jtype: JTypeView,
    pub name: Seq<char>,
    pub is_fun: bool,
    pub range: Range,
}

impl View for LocalVariable {
    type V = VarView;

    open spec fn view(&self) -> VarView {
        VarView {
            level: self.level as int,
            jtype: self.jtype@,
            name: self.name@,
            is_fun: self.is_fun,
            range: self.range,
        }
    }
}

pub open spec fn vars_view(vs: Seq<LocalVariable>) -> Seq<VarView> {
    vs.map_values(|v: LocalVariable| v@)
}

/// The byte range and the points of a node.
pub open spec fn node_range(n: NodeView) -> Range {
    Range {
        start_byte: n.start as usize,
        end_byte: n.end as usize,
        start_point: n.start_point,
        end_point: n.end_point,
    }
}

/// A variable of the declared type text `ty`.
pub open spec fn variable(level: int, ty: Seq<char>, name: Seq<char>, range: Range) -> VarView {
    VarView { level, jtype: var_jtype(ty), name, is_fun: false, range }
}

/// The variable that the local variable declaration at `c` declares: its
/// type is the first child, its name the first child of the declarator
/// after it. Also where the cursor stands after.
pub open spec fn local_declaration_at(ns: Seq<NodeView>, b: Seq<u8>, root: int, c: int, level: int) -> (
    VarView,
    int,
) {
    let t = down_pos(ns, root, c);
    let n = down_pos(ns, root, next_pos(ns, root, t));
    let after = next_pos(ns, root, n);
    (
        variable(level, text_or_empty(ns, b, t), text_or_empty(ns, b, n), node_range(ns[n])),
        up_pos(ns, root, up_pos(ns, root, after)),
    )
}

/// After the first of the parameters of a lambda: while the cursor is on a
/// `,`, the node after it is one more parameter.
pub open spec fn lambda_rest(ns: Seq<NodeView>, b: Seq<u8>, root: int, p: int, level: int, acc: Seq<VarView>) -> (
    Seq<VarView>,
    int,
)
    decreases ns.len() - p,
{
    if p < 0 || p >= ns.len() || kind_at(ns, p) != ","@ {
        (acc, p)
    } else {
        let (moved, q) = sibling(ns, root, p);
        let acc2 = acc.push(variable(level, "void"@, text_or_empty(ns, b, q), node_range(ns[q])));
        if moved && p < q && q < ns.len() {
            lambda_rest(ns, b, root, q, level, acc2)
        } else {
            (acc2, q)
        }
    }
}

/// The parameters of the lambda at `c`, all of type `void`, after `acc`: a
/// lone identifier, or those of its inferred parameters. Also where the
/// cursor stands after.
pub open spec fn lambda_vars_at(ns: Seq<NodeView>, b: Seq<u8>, root: int, c: int, level: int, acc: Seq<VarView>) -> (
    Seq<VarView>,
    int,
) {
    let h = down_pos(ns, root, c);
    if kind_at(ns, h) == "identifier"@ {
        (acc.push(variable(level, "void"@, text_or_empty(ns, b, h), node_range(ns[h]))), up_pos(ns, root, h))
    } else if kind_at(ns, h) == "inferred_parameters"@ {
        let p = next_pos(ns, root, down_pos(ns, root, h));
        let first = variable(level, "void"@, text_or_empty(ns, b, p), node_range(ns[p]));
        let (vs, q) = lambda_rest(ns, b, root, next_pos(ns, root, p), level, acc.push(first));
        (vs, up_pos(ns, root, up_pos(ns, root, q)))
    } else {
        (acc, up_pos(ns, root, h))
    }
}

/// Steps over a `modifiers` node.
pub open spec fn skip_modifiers(ns: Seq<NodeView>, root: int, e: int) -> int {
    if kind_at(ns, e) == "modifiers"@ {
        next_pos(ns, root, e)
    } else {
        e
    }
}

/// What a member of a class body declares: a field (its type, and the name
/// in its declarator) or a method (its return type and its name). Also
/// where the cursor stands after.
pub open spec fn class_member_at(ns: Seq<NodeView>, b: Seq<u8>, root: int, p: int, level: int) -> (
    Option<VarView>,
    int,
) {
    if kind_at(ns, p) == "field_declaration"@ {
        let t = skip_modifiers(ns, root, down_pos(ns, root, p));
        let n = down_pos(ns, root, next_pos(ns, root, t));
        (
            Some(variable(level, text_or_empty(ns, b, t), text_or_empty(ns, b, n), node_range(ns[n]))),
            up_pos(ns, root, up_pos(ns, root, n)),
        )
    } else if kind_at(ns, p) == "method_declaration"@ {
        let t = skip_modifiers(ns, root, down_pos(ns, root, p));
        let n = next_pos(ns, root, t);
        (
            Some(
                VarView {
                    level,
                    jtype: var_jtype(text_or_empty(ns, b, t)),
                    name: text_or_empty(ns, b, n),
                    is_fun: true,
                    range: node_range(ns[n]),
                },
            ),
            up_pos(ns, root, n),
        )
    } else {
        (None, p)
    }
}

/// The members from `p` on, after `acc`, while the cursor moves on.
pub open spec fn class_members_from(ns: Seq<NodeView>, b: Seq<u8>, root: int, p: int, level: int, acc: Seq<VarView>) -> Seq<
    VarView,
>
    decreases ns.len() - p,
{
    if p < 0 || p >= ns.len() {
        acc
    } else {
        let (v, q) = class_member_at(ns, b, root, p, level);
        let acc2 = match v {
            Some(x) => acc.push(x),
            None => acc,
        };
        let (moved, p2) = sibling(ns, root, q);
        if moved && p < p2 && p2 < ns.len() {
            class_members_from(ns, b, root, p2, level, acc2)
        } else {
            acc2
        }
    }
}

/// The fields and methods of the class body at `s`, after `acc`, read with
/// a cursor that stays within it.
pub open spec fn class_vars(ns: Seq<NodeView>, b: Seq<u8>, s: int, level: int, acc: Seq<VarView>) -> Seq<VarView> {
    class_members_from(ns, b, s, down_pos(ns, s, down_pos(ns, s, s)), level, acc)
}

/// The formal parameters after the cursor at `f`, after `acc`, and where
/// the cursor ends.
pub open spec fn params_from(ns: Seq<NodeView>, b: Seq<u8>, root: int, f: int, level: int, acc: Seq<VarView>) -> (
    Seq<VarView>,
    int,
)
    decreases ns.len() - f,
{
    if f < 0 || f >= ns.len() {
        (acc, f)
    } else {
        let (moved, g) = sibling(ns, root, f);
        if !(moved && f < g && g < ns.len()) {
            (acc, g)
        } else if kind_at(ns, g) != "formal_parameter"@ {
            params_from(ns, b, root, g, level, acc)
        } else {
            let t = down_pos(ns, root, g);
            let n = next_pos(ns, root, t);
            let acc2 = acc.push(variable(level, text_or_empty(ns, b, t), text_or_empty(ns, b, n), node_range(ns[n])));
            let q = up_pos(ns, root, n);
            if f < q && q < ns.len() {
                params_from(ns, b, root, q, level, acc2)
            } else {
                (acc2, q)
            }
        }
    }
}

/// The local variable declarations from `p` on, after `acc`.
pub open spec fn method_locals_from(ns: Seq<NodeView>, b: Seq<u8>, root: int, p: int, level: int, acc: Seq<VarView>) -> Seq<
    VarView,
>
    decreases ns.len() - p,
{
    if p < 0 || p >= ns.len() {
        acc
    } else {
        let (acc2, q) = if kind_at(ns, p) == "local_variable_declaration"@ {
            let (v, q) = local_declaration_at(ns, b, root, p, level);
            (acc.push(v), q)
        } else {
            (acc, p)
        };
        let (moved, p2) = sibling(ns, root, q);
        if moved && p < p2 && p2 < ns.len() {
            method_locals_from(ns, b, root, p2, level, acc2)
        } else {
            acc2
        }
    }
}

/// The parameters of the method declaration at `m`, when its fourth child
/// is its formal parameters, then the local variables declared directly in
/// the node after them, after `acc`; read with a cursor that stays within
/// the method.
pub open spec fn method_vars(ns: Seq<NodeView>, b: Seq<u8>, m: int, level: int, acc: Seq<VarView>) -> Seq<VarView> {
    let e = next_pos(ns, m, next_pos(ns, m, next_pos(ns, m, down_pos(ns, m, m))));
    let (params, h) = if kind_at(ns, e) == "formal_parameters"@ {
        let (ps, q) = params_from(ns, b, m, down_pos(ns, m, e), level, acc);
        (ps, up_pos(ns, m, q))
    } else {
        (acc, e)
    };
    method_locals_from(ns, b, m, down_pos(ns, m, next_pos(ns, m, h)), level, params)
}

/// What the node at `c` brings into view, after `acc`, and where the
/// cursor from the root stands after reading it.
pub open spec fn vars_at_node(ns: Seq<NodeView>, b: Seq<u8>, c: int, level: int, acc: Seq<VarView>) -> (
    Seq<VarView>,
    int,
) {
    let k = kind_at(ns, c);
    if k == "method_declaration"@ {
        (method_vars(ns, b, c, level, acc), c)
    } else if k == "class_body"@ {
        (class_vars(ns, b, c, level, acc), c)
    } else if k == "for_statement"@ {
        let d = next_pos(ns, 0, next_pos(ns, 0, down_pos(ns, 0, c)));
        let (v, q) = local_declaration_at(ns, b, 0, d, level);
        (acc.push(v), up_pos(ns, 0, q))
    } else if k == "enhanced_for_statement"@ {
        let t = next_pos(ns, 0, next_pos(ns, 0, down_pos(ns, 0, c)));
        let n = next_pos(ns, 0, t);
        (
            acc.push(variable(level, text_or_empty(ns, b, t), text_or_empty(ns, b, n), node_range(ns[n]))),
            up_pos(ns, 0, n),
        )
    } else if k == "lambda_expression"@ {
        lambda_vars_at(ns, b, 0, c, level, acc)
    } else {
        (acc, c)
    }
}

/// Going down from the node at `c` at depth `level` toward `goal`, one
/// child that ends after it at a time, what each node on the way brings
/// into view, after `acc`; at most 200 levels.
pub open spec fn vars_from(ns: Seq<NodeView>, b: Seq<u8>, c: int, level: int, goal: Point, acc: Seq<VarView>) -> Seq<
    VarView,
>
    decreases 200 - level,
{
    if level < 0 || level >= 200 || c < 0 || c >= ns.len() {
        acc
    } else {
        let (acc2, c2) = vars_at_node(ns, b, c, level, acc);
        match child_for_point(ns, c2, goal) {
            None => acc2,
            Some(n) => vars_from(ns, b, n, level + 1, goal, acc2),
        }
    }
}



/// `out` is `acc` followed by entries found at depth `level`.
pub open spec fn extends_at(acc: Seq<VarView>, out: Seq<VarView>, level: int) -> bool {
    &&& acc.len() <= out.len()
    &&& out.subrange(0, acc.len() as int) == acc
    &&& forall|i: int| acc.len() <= i < out.len() ==> (#[trigger] out[i]).level == level
}

proof fn lemma_extends_push(acc: Seq<VarView>, v: VarView, level: int)
    requires
        v.level == level,
    ensures
        extends_at(acc, acc.push(v), level),
{
    assert(acc.push(v).subrange(0, acc.len() as int) =~= acc);
}

proof fn lemma_extends_trans(a: Seq<VarView>, b: Seq<VarView>, c: Seq<VarView>, level: int)
    requires
        extends_at(a, b, level),
        extends_at(b, c, level),
    ensures
        extends_at(a, c, level),
{
    assert(c.subrange(0, a.len() as int) =~= b.subrange(0, a.len() as int)) by {
        assert forall|i: int| 0 <= i < a.len() implies c.subrange(0, a.len() as int)[i] == b.subrange(
            0,
            a.len() as int,
        )[i] by {
            assert(c.subrange(0, b.len() as int)[i] == c[i]);
        }
    }
    assert forall|i: int| a.len() <= i < c.len() implies (#[trigger] c[i]).level == level by {
        if i < b.len() {
            assert(c.subrange(0, b.len() as int)[i] == c[i]);
        }
    }
}

proof fn lemma_extends_refl(acc: Seq<VarView>, level: int)
    ensures
        extends_at(acc, acc, level),
{
    assert(acc.subrange(0, acc.len() as int) =~= acc);
}

proof fn lemma_lambda_rest_levels(ns: Seq<NodeView>, b: Seq<u8>, root: int, p: int, level: int, acc: Seq<VarView>)
    ensures
        extends_at(acc, lambda_rest(ns, b, root, p, level, acc).0, level),
    decreases ns.len() - p,
{
    if p < 0 || p >= ns.len() || kind_at(ns, p) != ","@ {
        lemma_extends_refl(acc, level);
    } else {
        let (moved, q) = sibling(ns, root, p);
        let acc2 = acc.push(variable(level, "void"@, text_or_empty(ns, b, q), node_range(ns[q])));
        lemma_extends_push(acc, variable(level, "void"@, text_or_empty(ns, b, q), node_range(ns[q])), level);
        if moved && p < q && q < ns.len() {
            lemma_lambda_rest_levels(ns, b, root, q, level, acc2);
            lemma_extends_trans(acc, acc2, lambda_rest(ns, b, root, q, level, acc2).0, level);
        }
    }
}

proof fn lemma_class_members_levels(ns: Seq<NodeView>, b: Seq<u8>, root: int, p: int, level: int, acc: Seq<VarView>)
    ensures
        extends_at(acc, class_members_from(ns, b, root, p, level, acc), level),
    decreases ns.len() - p,
{
    if p < 0 || p >= ns.len() {
        lemma_extends_refl(acc, level);
    } else {
        let (v, q) = class_member_at(ns, b, root, p, level);
        let acc2 = match v {
            Some(x) => acc.push(x),
            None => acc,
        };
        match v {
            Some(x) => lemma_extends_push(acc, x, level),
            None => lemma_extends_refl(acc, level),
        }
        let (moved, p2) = sibling(ns, root, q);
        if moved && p < p2 && p2 < ns.len() {
            lemma_class_members_levels(ns, b, root, p2, level, acc2);
            lemma_extends_trans(acc, acc2, class_members_from(ns, b, root, p2, level, acc2), level);
        }
    }
}

proof fn lemma_params_levels(ns: Seq<NodeView>, b: Seq<u8>, root: int, f: int, level: int, acc: Seq<VarView>)
    ensures
        extends_at(acc, params_from(ns, b, root, f, level, acc).0, level),
    decreases ns.len() - f,
{
    if f < 0 || f >= ns.len() {
        lemma_extends_refl(acc, level);
    } else {
        let (moved, g) = sibling(ns, root, f);
        if !(moved && f < g && g < ns.len()) {
            lemma_extends_refl(acc, level);
        } else if kind_at(ns, g) != "formal_parameter"@ {
            lemma_params_levels(ns, b, root, g, level, acc);
        } else {
            let t = down_pos(ns, root, g);
            let n = next_pos(ns, root, t);
            let v = variable(level, text_or_empty(ns, b, t), text_or_empty(ns, b, n), node_range(ns[n]));
            let acc2 = acc.push(v);
            lemma_extends_push(acc, v, level);
            let q = up_pos(ns, root, n);
            if f < q && q < ns.len() {
                lemma_params_levels(ns, b, root, q, level, acc2);
                lemma_extends_trans(acc, acc2, params_from(ns, b, root, q, level, acc2).0, level);
            }
        }
    }
}

proof fn lemma_method_locals_levels(ns: Seq<NodeView>, b: Seq<u8>, root: int, p: int, level: int, acc: Seq<VarView>)
    ensures
        extends_at(acc, method_locals_from(ns, b, root, p, level, acc), level),
    decreases ns.len() - p,
{
    if p < 0 || p >= ns.len() {
        lemma_extends_refl(acc, level);
    } else {
        let (acc2, q) = if kind_at(ns, p) == "local_variable_declaration"@ {
            let (v, q) = local_declaration_at(ns, b, root, p, level);
            lemma_extends_push(acc, v, level);
            (acc.push(v), q)
        } else {
            lemma_extends_refl(acc, level);
            (acc, p)
        };
        let (moved, p2) = sibling(ns, root, q);
        if moved && p < p2 && p2 < ns.len() {
            lemma_method_locals_levels(ns, b, root, p2, level, acc2);
            lemma_extends_trans(acc, acc2, method_locals_from(ns, b, root, p2, level, acc2), level);
        }
    }
}

proof fn lemma_node_levels(ns: Seq<NodeView>, b: Seq<u8>, c: int, level: int, acc: Seq<VarView>)
    ensures
        extends_at(acc, vars_at_node(ns, b, c, level, acc).0, level),
{
    let k = kind_at(ns, c);
    if k == "method_declaration"@ {
        let m = c;
        let e = next_pos(ns, m, next_pos(ns, m, next_pos(ns, m, down_pos(ns, m, m))));
        if kind_at(ns, e) == "formal_parameters"@ {
            let (ps, q) = params_from(ns, b, m, down_pos(ns, m, e), level, acc);
            lemma_params_levels(ns, b, m, down_pos(ns, m, e), level, acc);
            let h = up_pos(ns, m, q);
            lemma_method_locals_levels(ns, b, m, down_pos(ns, m, next_pos(ns, m, h)), level, ps);
            lemma_extends_trans(acc, ps, method_vars(ns, b, c, level, acc), level);
        } else {
            lemma_method_locals_levels(ns, b, m, down_pos(ns, m, next_pos(ns, m, e)), level, acc);
        }
    } else if k == "class_body"@ {
        lemma_class_members_levels(ns, b, c, down_pos(ns, c, down_pos(ns, c, c)), level, acc);
    } else if k == "for_statement"@ {
        let d = next_pos(ns, 0, next_pos(ns, 0, down_pos(ns, 0, c)));
        let (v, q) = local_declaration_at(ns, b, 0, d, level);
        lemma_extends_push(acc, v, level);
    } else if k == "enhanced_for_statement"@ {
        let t = next_pos(ns, 0, next_pos(ns, 0, down_pos(ns, 0, c)));
        let n = next_pos(ns, 0, t);
        lemma_extends_push(acc, variable(level, text_or_empty(ns, b, t), text_or_empty(ns, b, n), node_range(ns[n])), level);
    } else if k == "lambda_expression"@ {
        let h = down_pos(ns, 0, c);
        if kind_at(ns, h) == "identifier"@ {
            lemma_extends_push(acc, variable(level, "void"@, text_or_empty(ns, b, h), node_range(ns[h])), level);
        } else if kind_at(ns, h) == "inferred_parameters"@ {
            let p = next_pos(ns, 0, down_pos(ns, 0, h));
            let first = variable(level, "void"@, text_or_empty(ns, b, p), node_range(ns[p]));
            lemma_extends_push(acc, first, level);
            lemma_lambda_rest_levels(ns, b, 0, next_pos(ns, 0, p), level, acc.push(first));
            lemma_extends_trans(acc, acc.push(first), vars_at_node(ns, b, c, level, acc).0, level);
        } else {
            lemma_extends_refl(acc, level);
        }
    } else {
        lemma_extends_refl(acc, level);
    }
}

/// Levels below 200, never going down along the list.
pub open spec fn levels_ordered(vs: Seq<VarView>) -> bool {
    &&& forall|i: int| 0 <= i < vs.len() ==> 0 <= (#[trigger] vs[i]).level < 200
    &&& forall|i: int, j: int| 0 <= i < j < vs.len() ==> (#[trigger] vs[i]).level <= (#[trigger] vs[j]).level
}

proof fn lemma_vars_from_levels(ns: Seq<NodeView>, b: Seq<u8>, c: int, level: int, goal: Point, acc: Seq<VarView>)
    requires
        0 <= level,
        levels_ordered(acc),
        forall|i: int| 0 <= i < acc.len() ==> (#[trigger] acc[i]).level <= level,
    ensures
        levels_ordered(vars_from(ns, b, c, level, goal, acc)),
    decreases 200 - level,
{
    if level < 0 || level >= 200 || c < 0 || c >= ns.len() {
    } else {
        let (acc2, c2) = vars_at_node(ns, b, c, level, acc);
        lemma_node_levels(ns, b, c, level, acc);
        assert forall|i: int| 0 <= i < acc2.len() implies (#[trigger] acc2[i]).level <= level && 0 <= acc2[i].level < 200 by {
            if i < acc.len() {
                assert(acc2.subrange(0, acc.len() as int)[i] == acc2[i]);
            }
        }
        assert forall|i: int, j: int| 0 <= i < j < acc2.len() implies (#[trigger] acc2[i]).level <= (
        #[trigger] acc2[j]).level by {
            if j < acc.len() {
                assert(acc2.subrange(0, acc.len() as int)[i] == acc2[i]);
                assert(acc2.subrange(0, acc.len() as int)[j] == acc2[j]);
            } else if i < acc.len() {
                assert(acc2.subrange(0, acc.len() as int)[i] == acc2[i]);
            }
        }
        match child_for_point(ns, c2, goal) {
            None => {},
            Some(n) => lemma_vars_from_levels(ns, b, n, level + 1, goal, acc2),
        }
    }
}

pub(crate) fn node_range_exec(ns: &Vec<SyntaxNode>, c: usize) -> (r: Range)
    requires
        c < ns.len(),
    ensures
        r == node_range(nodes_view(ns@)[c as int]),
{
    assert(nodes_view(ns@)[c as int] == ns@[c as int]@);
    let n = &ns[c];
    Range {
        start_byte: n.span[0],
        end_byte: n.span[1],
        start_point: Point { row: n.span[2], column: n.span[3] },
        end_point: Point { row: n.span[4], column: n.span[5] },
    }
}

fn parse_variable(level: usize, ty: String, name: String, range: Range) -> (r: LocalVariable)
    ensures
        r@ == variable(level as int, ty@, name@, range),
{
    LocalVariable { level, jtype: parse_jtype(ty), name, is_fun: false, range }
}

fn push_var(out: &mut Vec<LocalVariable>, v: LocalVariable)
    ensures
        vars_view(final(out)@) == vars_view(old(out)@).push(v@),
{
    let ghost vv = v@;
    let ghost before = out@;
    out.push(v);
    assert(vars_view(out@) =~= vars_view(before).push(vv));
}

/// Reads the local variable declaration at the cursor (see
/// `local_declaration_at`).
fn parse_local_variable_declaration(
    ns: &Vec<SyntaxNode>,
    bytes: &[u8],
    cursor: &mut NodeCursor,
    level: usize,
    out: &mut Vec<LocalVariable>,
)
    requires
        old(cursor).pos < ns.len(),
        well_placed(nodes_view(ns@), bytes@.len() as int),
    ensures
        final(cursor).root == old(cursor).root,
        final(cursor).pos < ns.len(),
        ({
            let (v, q) = local_declaration_at(
                nodes_view(ns@),
                bytes@,
                old(cursor).root as int,
                old(cursor).pos as int,
                level as int,
            );
            &&& final(cursor).pos == q
            &&& vars_view(final(out)@) == vars_view(old(out)@).push(v)
        }),
{
    cursor.first_child(ns);
    let ty = text_or_empty_exec(ns, bytes, cursor.pos);
    cursor.sibling(ns);
    cursor.first_child(ns);
    let name = text_or_empty_exec(ns, bytes, cursor.pos);
    let range = node_range_exec(ns, cursor.pos);
    cursor.sibling(ns);
    push_var(out, parse_variable(level, ty, name, range));
    cursor.parent(ns);
    cursor.parent(ns);
}

/// Reads the parameters of the lambda at the cursor (see `lambda_vars_at`).
/// Where the cursor cannot move on after a `,`, the reading stops there.
fn get_lambda_vars(
    ns: &Vec<SyntaxNode>,
    bytes: &[u8],
    cursor: &mut NodeCursor,
    level: usize,
    out: &mut Vec<LocalVariable>,
)
    requires
        old(cursor).pos < ns.len(),
        well_placed(nodes_view(ns@), bytes@.len() as int),
    ensures
        final(cursor).root == old(cursor).root,
        final(cursor).pos < ns.len(),
        lambda_vars_at(
            nodes_view(ns@),
            bytes@,
            old(cursor).root as int,
            old(cursor).pos as int,
            level as int,
            vars_view(old(out)@),
        ) == (vars_view(final(out)@), final(cursor).pos as int),
{
    let ghost nv = nodes_view(ns@);
    let ghost root = cursor.root as int;
    cursor.first_child(ns);
    if kind_is(ns, cursor.pos, "identifier") {
        let name = text_or_empty_exec(ns, bytes, cursor.pos);
        let range = node_range_exec(ns, cursor.pos);
        push_var(out, parse_variable(level, "void".to_string(), name, range));
    } else if kind_is(ns, cursor.pos, "inferred_parameters") {
        cursor.first_child(ns);
        cursor.sibling(ns);
        let name = text_or_empty_exec(ns, bytes, cursor.pos);
        let range = node_range_exec(ns, cursor.pos);
        push_var(out, parse_variable(level, "void".to_string(), name, range));
        cursor.sibling(ns);
        let ghost start = cursor.pos as int;
        let ghost acc0 = vars_view(out@);
        loop
            invariant_except_break
                lambda_rest(nv, bytes@, root, start, level as int, acc0) == lambda_rest(
                    nv,
                    bytes@,
                    root,
                    cursor.pos as int,
                    level as int,
                    vars_view(out@),
                ),
            invariant
                cursor.pos < ns.len(),
                cursor.root == root,
                nv == nodes_view(ns@),
                well_placed(nodes_view(ns@), bytes@.len() as int),
            ensures
                lambda_rest(nv, bytes@, root, start, level as int, acc0) == (vars_view(out@), cursor.pos as int),
            decreases ns.len() - cursor.pos,
        {
            let p = cursor.pos;
            if !kind_is(ns, p, ",") {
                break;
            }
            let moved = cursor.sibling(ns);
            let name = text_or_empty_exec(ns, bytes, cursor.pos);
            let range = node_range_exec(ns, cursor.pos);
            push_var(out, parse_variable(level, "void".to_string(), name, range));
            if !(moved && p < cursor.pos) {
                break;
            }
        }
        cursor.parent(ns);
    }
    cursor.parent(ns);
}

/// Reads the fields and methods of the class body at `s` (see
/// `class_vars`). Where the cursor cannot move on past a member, the
/// reading stops there.
fn get_class_vars(ns: &Vec<SyntaxNode>, bytes: &[u8], s: usize, level: usize, out: &mut Vec<LocalVariable>)
    requires
        s < ns.len(),
        well_placed(nodes_view(ns@), bytes@.len() as int),
    ensures
        vars_view(final(out)@) == class_vars(nodes_view(ns@), bytes@, s as int, level as int, vars_view(old(out)@)),
{
    let ghost nv = nodes_view(ns@);
    let mut cursor = NodeCursor { root: s, pos: s };
    cursor.first_child(ns);
    cursor.first_child(ns);
    let ghost start = cursor.pos as int;
    let ghost acc0 = vars_view(out@);
    loop
        invariant_except_break
            class_members_from(nv, bytes@, s as int, start, level as int, acc0) == class_members_from(
                nv,
                bytes@,
                s as int,
                cursor.pos as int,
                level as int,
                vars_view(out@),
            ),
        invariant
            cursor.pos < ns.len(),
            cursor.root == s,
            nv == nodes_view(ns@),
            well_placed(nodes_view(ns@), bytes@.len() as int),
        ensures
            class_members_from(nv, bytes@, s as int, start, level as int, acc0) == vars_view(out@),
        decreases ns.len() - cursor.pos,
    {
        let p = cursor.pos;
        if kind_is(ns, p, "field_declaration") {
            cursor.first_child(ns);
            if kind_is(ns, cursor.pos, "modifiers") {
                cursor.sibling(ns);
            }
            let ty = text_or_empty_exec(ns, bytes, cursor.pos);
            cursor.sibling(ns);
            cursor.first_child(ns);
            let name = text_or_empty_exec(ns, bytes, cursor.pos);
            let range = node_range_exec(ns, cursor.pos);
            push_var(out, parse_variable(level, ty, name, range));
            cursor.parent(ns);
            cursor.parent(ns);
        } else if kind_is(ns, p, "method_declaration") {
            cursor.first_child(ns);
            if kind_is(ns, cursor.pos, "modifiers") {
                cursor.sibling(ns);
            }
            let ty = text_or_empty_exec(ns, bytes, cursor.pos);
            cursor.sibling(ns);
            let name = text_or_empty_exec(ns, bytes, cursor.pos);
            let range = node_range_exec(ns, cursor.pos);
            push_var(out, LocalVariable { level, jtype: parse_jtype(ty), name, is_fun: true, range });
            cursor.parent(ns);
        }
        let moved = cursor.sibling(ns);
        if !(moved && p < cursor.pos) {
            break;
        }
    }
}

/// Reads the formal parameters after the cursor (see `params_from`).
fn read_params(ns: &Vec<SyntaxNode>, bytes: &[u8], cursor: &mut NodeCursor, level: usize, out: &mut Vec<LocalVariable>)
    requires
        old(cursor).pos < ns.len(),
        well_placed(nodes_view(ns@), bytes@.len() as int),
    ensures
        final(cursor).root == old(cursor).root,
        final(cursor).pos < ns.len(),
        params_from(
            nodes_view(ns@),
            bytes@,
            old(cursor).root as int,
            old(cursor).pos as int,
            level as int,
            vars_view(old(out)@),
        ) == (vars_view(final(out)@), final(cursor).pos as int),
{
    let ghost nv = nodes_view(ns@);
    let ghost root = cursor.root as int;
    let ghost start = cursor.pos as int;
    let ghost acc0 = vars_view(out@);
    loop
        invariant_except_break
            params_from(nv, bytes@, root, start, level as int, acc0) == params_from(
                nv,
                bytes@,
                root,
                cursor.pos as int,
                level as int,
                vars_view(out@),
            ),
        invariant
            cursor.pos < ns.len(),
            cursor.root == root,
            nv == nodes_view(ns@),
            well_placed(nodes_view(ns@), bytes@.len() as int),
        ensures
            params_from(nv, bytes@, root, start, level as int, acc0) == (vars_view(out@), cursor.pos as int),
        decreases ns.len() - cursor.pos,
    {
        let f = cursor.pos;
        let moved = cursor.sibling(ns);
        if !(moved && f < cursor.pos) {
            break;
        }
        if !kind_is(ns, cursor.pos, "formal_parameter") {
            continue;
        }
        cursor.first_child(ns);
        let ty = text_or_empty_exec(ns, bytes, cursor.pos);
        cursor.sibling(ns);
        let name = text_or_empty_exec(ns, bytes, cursor.pos);
        let range = node_range_exec(ns, cursor.pos);
        push_var(out, parse_variable(level, ty, name, range));
        cursor.parent(ns);
        if !(f < cursor.pos) {
            break;
        }
    }
}

/// Reads the parameters and local variables of the method declaration at
/// `m` (see `method_vars`).
fn get_method_vars(ns: &Vec<SyntaxNode>, bytes: &[u8], m: usize, level: usize, out: &mut Vec<LocalVariable>)
    requires
        m < ns.len(),
        well_placed(nodes_view(ns@), bytes@.len() as int),
    ensures
        vars_view(final(out)@) == method_vars(nodes_view(ns@), bytes@, m as int, level as int, vars_view(old(out)@)),
{
    let ghost nv = nodes_view(ns@);
    let mut cursor = NodeCursor { root: m, pos: m };
    cursor.first_child(ns);
    cursor.sibling(ns);
    cursor.sibling(ns);
    cursor.sibling(ns);
    if kind_is(ns, cursor.pos, "formal_parameters") {
        cursor.first_child(ns);
        read_params(ns, bytes, &mut cursor, level, out);
        cursor.parent(ns);
    }
    cursor.sibling(ns);
    cursor.first_child(ns);
    let ghost start = cursor.pos as int;
    let ghost acc0 = vars_view(out@);
    loop
        invariant_except_break
            method_locals_from(nv, bytes@, m as int, start, level as int, acc0) == method_locals_from(
                nv,
                bytes@,
                m as int,
                cursor.pos as int,
                level as int,
                vars_view(out@),
            ),
        invariant
            cursor.pos < ns.len(),
            cursor.root == m,
            nv == nodes_view(ns@),
            well_placed(nodes_view(ns@), bytes@.len() as int),
        ensures
            method_locals_from(nv, bytes@, m as int, start, level as int, acc0) == vars_view(out@),
        decreases ns.len() - cursor.pos,
    {
        let p = cursor.pos;
        if kind_is(ns, p, "local_variable_declaration") {
            parse_local_variable_declaration(ns, bytes, &mut cursor, level, out);
        }
        let moved = cursor.sibling(ns);
        if !(moved && p < cursor.pos) {
            break;
        }
    }
}

/// The variables and methods in view from `point` in the file whose tree is
/// `ns` (see `vars_from`).
pub fn vars_in_tree(ns: &Vec<SyntaxNode>, bytes: &[u8], point: &Point) -> (r: Vec<LocalVariable>)
    requires
        well_placed(nodes_view(ns@), bytes@.len() as int),
    ensures
        vars_view(r@) == vars_from(nodes_view(ns@), bytes@, 0, 0, *point, seq![]),
        forall|i: int| 0 <= i < r@.len() ==> (#[trigger] r@[i]).level < 200,
        forall|i: int, j: int| 0 <= i < j < r@.len() ==> (#[trigger] r@[i]).level <= (#[trigger] r@[j]).level,
{
    proof {
        lemma_vars_from_levels(nodes_view(ns@), bytes@, 0, 0, *point, seq![]);
    }
    let ghost nv = nodes_view(ns@);
    let mut cursor = NodeCursor { root: 0, pos: 0 };
    let mut level: usize = 0;
    let mut out: Vec<LocalVariable> = Vec::new();
    assert(vars_view(out@) =~= Seq::<VarView>::empty());
    loop
        invariant_except_break
            vars_from(nv, bytes@, 0, 0, *point, seq![]) == vars_from(
                nv,
                bytes@,
                cursor.pos as int,
                level as int,
                *point,
                vars_view(out@),
            ),
            level < 200,
        invariant
            cursor.pos < ns.len(),
            cursor.root == 0,
            nv == nodes_view(ns@),
            well_placed(nodes_view(ns@), bytes@.len() as int),
        ensures
            vars_from(nv, bytes@, 0, 0, *point, seq![]) == vars_view(out@),
        decreases 200 - level,
    {
        let c = cursor.pos;
        if kind_is(ns, c, "method_declaration") {
            get_method_vars(ns, bytes, c, level, &mut out);
        } else if kind_is(ns, c, "class_body") {
            get_class_vars(ns, bytes, c, level, &mut out);
        } else if kind_is(ns, c, "for_statement") {
            cursor.first_child(ns);
            cursor.sibling(ns);
            cursor.sibling(ns);
            parse_local_variable_declaration(ns, bytes, &mut cursor, level, &mut out);
            cursor.parent(ns);
        } else if kind_is(ns, c, "enhanced_for_statement") {
            cursor.first_child(ns);
            cursor.sibling(ns);
            cursor.sibling(ns);
            let ty = text_or_empty_exec(ns, bytes, cursor.pos);
            cursor.sibling(ns);
            let name = text_or_empty_exec(ns, bytes, cursor.pos);
            let range = node_range_exec(ns, cursor.pos);
            push_var(&mut out, parse_variable(level, ty, name, range));
            cursor.parent(ns);
        } else if kind_is(ns, c, "lambda_expression") {
            get_lambda_vars(ns, bytes, &mut cursor, level, &mut out);
        }
        let n = goto_first_child_for_point(ns, cursor.pos, point);
        level += 1;
        match n {
            None => break,
            Some(k) => {
                if level >= 200 {
                    assert(vars_from(nv, bytes@, k as int, level as int, *point, vars_view(out@)) == vars_view(out@));
                    break;
                }
                cursor.pos = k;
            },
        }
    }
    proof {
        let vs = vars_view(out@);
        assert forall|i: int| 0 <= i < out@.len() implies (#[trigger] out@[i]).level < 200 by {
            assert(vs[i] == out@[i]@);
        }
        assert forall|i: int, j: int| 0 <= i < j < out@.len() implies (#[trigger] out@[i]).level <= (
        #[trigger] out@[j]).level by {
            assert(vs[i] == out@[i]@);
            assert(vs[j] == out@[j]@);
        }
    }
    out
}


/// The variables and methods in view from `point` in `document` (see
/// `vars_from`).
pub fn get_vars(document: &Document, point: &Point) -> (r: Vec<LocalVariable>)
    requires
        well_placed(nodes_view(document.tree@), encode_utf8(document.str_data@).len() as int),
    ensures
        vars_view(r@) == vars_from(nodes_view(document.tree@), encode_utf8(document.str_data@), 0, 0, *point, seq![]),
        forall|i: int| 0 <= i < r@.len() ==> (#[trigger] r@[i]).level < 200,
        forall|i: int, j: int| 0 <= i < j < r@.len() ==> (#[trigger] r@[i]).level <= (#[trigger] r@[j]).level,
{
    vars_in_tree(&document.tree, document.as_bytes(), point)
}

} // verus!
