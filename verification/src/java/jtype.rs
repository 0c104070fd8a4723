//! The Java type that a node of the syntax tree names.
use vstd::prelude::*;

use crate::dto::{jtypes_view, JType, JTypeView};
use crate::java::syntax::{
    down_pos, get_string, kind_is, lemma_moves, next_pos, node_text, nodes_view, sibling,
    well_placed, NodeCursor, NodeView, SyntaxNode,
};
use crate::java::{utf8_err, ClassErr, JavaErr, ParseJavaError};
use crate::text::{
    chars_of, replace_char, replace_char_exec, rsplit_once, rsplit_once_exec, str_eq, string_of,
};

verus! {

pub open spec fn strings_view(v: Seq<String>) -> Seq<Seq<char>> {
    v.map_values(|s: String| s@)
}

/// The type named `t`: a type parameter when it is one of `tps`, else a
/// class.
pub open spec fn named_type(t: Seq<char>, tps: Seq<Seq<char>>) -> JTypeView {
    if tps.contains(t) {
        JTypeView::Parameter(t)
    } else {
        JTypeView::Class(t)
    }
}

/// `r` with `acc` put before what it holds.
pub open spec fn prepend<T>(acc: Seq<T>, r: Result<Seq<T>, JavaErr>) -> Result<Seq<T>, JavaErr> {
    match r {
        Ok(rest) => Ok(acc + rest),
        Err(e) => Err(e),
    }
}

pub proof fn lemma_prepend<T>(a: Seq<T>, h: Seq<T>, r: Result<Seq<T>, JavaErr>)
    ensures
        prepend(a, prepend(h, r)) == prepend(a + h, r),
        prepend(Seq::<T>::empty(), r) == r,
{
    match r {
        Ok(rest) => {
            assert(a + (h + rest) =~= (a + h) + rest);
            assert(Seq::<T>::empty() + rest =~= rest);
        },
        Err(_) => {},
    }
}

/// The type that node `c` names. Its text decides for the primitive types,
/// a class (a type parameter when it is one of `tps`), a wildcard (`?`, or
/// the type after its last space) and a scoped class (with `$` for each
/// `.`); an array type is the array of what its first child names, a
/// generic type the class of its first child with the types among the
/// children of its type arguments. A node of another kind, or with another
/// text, is an unknown type; so is an array or generic type whose cursor
/// cannot move into it.
pub open spec fn jtype_at(ns: Seq<NodeView>, b: Seq<u8>, c: int, tps: Seq<Seq<char>>) -> Result<
    JTypeView,
    JavaErr,
>
    decreases ns.len() - c, 1int,
{
    if c < 0 || c >= ns.len() {
        Err(JavaErr::Class(ClassErr::Unknown))
    } else {
        match node_text(ns, b, c) {
            None => Err(utf8_err(ns, b, c)),
            Some(t) => {
                let k = ns[c].kind;
                if k == "integral_type"@ && t == "int"@ {
                    Ok(JTypeView::Int)
                } else if k == "integral_type"@ && t == "long"@ {
                    Ok(JTypeView::Long)
                } else if k == "integral_type"@ && t == "short"@ {
                    Ok(JTypeView::Short)
                } else if k == "integral_type"@ && t == "byte"@ {
                    Ok(JTypeView::Byte)
                } else if k == "integral_type"@ && t == "char"@ {
                    Ok(JTypeView::Char)
                } else if k == "floating_point_type"@ && t == "double"@ {
                    Ok(JTypeView::Double)
                } else if k == "floating_point_type"@ && t == "float"@ {
                    Ok(JTypeView::Float)
                } else if k == "type_identifier"@ {
                    Ok(named_type(t, tps))
                } else if k == "scoped_type_identifier"@ {
                    Ok(JTypeView::Class(replace_char(t, '.', '$')))
                } else if k == "boolean_type"@ && t == "boolean"@ {
                    Ok(JTypeView::Boolean)
                } else if k == "void_type"@ && t == "void"@ {
                    Ok(JTypeView::Void)
                } else if k == "wildcard"@ && t == "?"@ {
                    Ok(JTypeView::Wildcard)
                } else if k == "wildcard"@ {
                    match rsplit_once(t, seq![' ']) {
                        Some((_, class)) => Ok(named_type(class, tps)),
                        None => Err(JavaErr::UnknownWildcard(t)),
                    }
                } else if k == "array_type"@ {
                    let c1 = down_pos(ns, c, c);
                    proof {
                        lemma_moves(ns, c, c);
                    }
                    if c < c1 {
                        match jtype_at(ns, b, c1, tps) {
                            Ok(j) => Ok(JTypeView::Array(Box::new(j))),
                            Err(e) => Err(e),
                        }
                    } else {
                        Err(JavaErr::UnknownJType(k, t))
                    }
                } else if k == "generic_type"@ {
                    let c1 = down_pos(ns, c, c);
                    proof {
                        lemma_moves(ns, c, c);
                    }
                    match node_text(ns, b, c1) {
                        None => Err(utf8_err(ns, b, c1)),
                        Some(class) => {
                            let c2 = next_pos(ns, c, c1);
                            proof {
                                lemma_moves(ns, c, c1);
                            }
                            let c3 = down_pos(ns, c, c2);
                            proof {
                                lemma_moves(ns, c, c2);
                            }
                            let c4 = next_pos(ns, c, c3);
                            proof {
                                lemma_moves(ns, c, c3);
                            }
                            if c < c4 {
                                match type_args_from(ns, b, c, c4, tps) {
                                    Ok(args) => Ok(JTypeView::Generic(class, args)),
                                    Err(e) => Err(e),
                                }
                            } else {
                                Err(JavaErr::UnknownJType(k, t))
                            }
                        },
                    }
                } else {
                    Err(JavaErr::UnknownJType(k, t))
                }
            },
        }
    }
}

/// The types among the nodes from `c` on, each next one a sibling of the
/// last (a cursor rooted at `root`): `>` and `,` are passed over.
pub open spec fn type_args_from(
    ns: Seq<NodeView>,
    b: Seq<u8>,
    root: int,
    c: int,
    tps: Seq<Seq<char>>,
) -> Result<Seq<JTypeView>, JavaErr>
    decreases ns.len() - c, 2int,
{
    if c <= root || c < 0 || c >= ns.len() {
        Ok(seq![])
    } else {
        let here: Result<Seq<JTypeView>, JavaErr> = if ns[c].kind == ">"@ || ns[c].kind == ","@ {
            Ok(seq![])
        } else {
            match jtype_at(ns, b, c, tps) {
                Ok(j) => Ok(seq![j]),
                Err(e) => Err(e),
            }
        };
        match here {
            Err(e) => Err(e),
            Ok(h) => {
                let (moved, c2) = sibling(ns, root, c);
                proof {
                    lemma_moves(ns, root, c);
                }
                if moved {
                    prepend(h, type_args_from(ns, b, root, c2, tps))
                } else {
                    Ok(h)
                }
            },
        }
    }
}

pub open spec fn jtype_result(r: Result<JType, ParseJavaError>) -> Result<JTypeView, JavaErr> {
    match r {
        Ok(j) => Ok(j@),
        Err(e) => Err(e@),
    }
}

/// Whether `t` is one of `tps`.
fn contains_string(tps: &Vec<String>, t: &str) -> (b: bool)
    ensures
        b == strings_view(tps@).contains(t@),
{
    let mut k: usize = 0;
    while k < tps.len()
        invariant
            k <= tps.len(),
            forall|i: int| 0 <= i < k ==> tps@[i]@ != t@,
        decreases tps.len() - k,
    {
        if str_eq(tps[k].as_str(), t) {
            assert(strings_view(tps@)[k as int] == t@);
            return true;
        }
        k += 1;
    }
    proof {
        if strings_view(tps@).contains(t@) {
            let i = choose|i: int| 0 <= i < strings_view(tps@).len() && strings_view(tps@)[i] == t@;
            assert(tps@[i]@ == t@);
        }
    }
    false
}

fn named_type_exec(t: String, tps: &Vec<String>) -> (j: JType)
    ensures
        j@ == named_type(t@, strings_view(tps@)),
{
    if contains_string(tps, t.as_str()) {
        JType::Parameter(t)
    } else {
        JType::Class(t)
    }
}

fn kind_of(ns: &Vec<SyntaxNode>, c: usize) -> (k: String)
    requires
        c < ns.len(),
    ensures
        k@ == nodes_view(ns@)[c as int].kind,
{
    assert(nodes_view(ns@)[c as int] == ns@[c as int]@);
    ns[c].kind.clone()
}

/// Reads the type that node `c` names (see `jtype_at`).
pub fn parse_jtype(ns: &Vec<SyntaxNode>, bytes: &[u8], c: usize, tps: &Vec<String>) -> (r: Result<
    JType,
    ParseJavaError,
>)
    requires
        c < ns.len(),
        well_placed(nodes_view(ns@), bytes@.len() as int),
    ensures
        jtype_result(r) == jtype_at(nodes_view(ns@), bytes@, c as int, strings_view(tps@)),
    decreases ns.len() - c,
{
    let ghost nv = nodes_view(ns@);
    let ghost tv = strings_view(tps@);
    assert(nv.len() == ns@.len());
    let t = match get_string(ns, bytes, c) {
        Ok(t) => t,
        Err(e) => {
            return Err(ParseJavaError::Utf8(e));
        },
    };
    let ts = t.as_str();
    let integral = kind_is(ns, c, "integral_type");
    let floating = kind_is(ns, c, "floating_point_type");
    if integral && str_eq(ts, "int") {
        return Ok(JType::Int);
    }
    if integral && str_eq(ts, "long") {
        return Ok(JType::Long);
    }
    if integral && str_eq(ts, "short") {
        return Ok(JType::Short);
    }
    if integral && str_eq(ts, "byte") {
        return Ok(JType::Byte);
    }
    if integral && str_eq(ts, "char") {
        return Ok(JType::Char);
    }
    if floating && str_eq(ts, "double") {
        return Ok(JType::Double);
    }
    if floating && str_eq(ts, "float") {
        return Ok(JType::Float);
    }
    if kind_is(ns, c, "type_identifier") {
        return Ok(named_type_exec(t, tps));
    }
    if kind_is(ns, c, "scoped_type_identifier") {
        return Ok(JType::Class(replace_char_exec(ts, '.', '$')));
    }
    if kind_is(ns, c, "boolean_type") && str_eq(ts, "boolean") {
        return Ok(JType::Boolean);
    }
    if kind_is(ns, c, "void_type") && str_eq(ts, "void") {
        return Ok(JType::Void);
    }
    let wildcard = kind_is(ns, c, "wildcard");
    if wildcard && str_eq(ts, "?") {
        return Ok(JType::Wildcard);
    }
    if wildcard {
        let v = chars_of(ts);
        let space = chars_of(" ");
        proof {
            reveal_strlit(" ");
            assert(space@ =~= seq![' ']);
        }
        return match rsplit_once_exec(&v, &space) {
            Some((_, class)) => {
                let cs = string_of(&class, 0, class.len());
                assert(class@.subrange(0, class@.len() as int) =~= class@);
                Ok(named_type_exec(cs, tps))
            },
            None => Err(ParseJavaError::UnknownWildcard(t)),
        };
    }
    if kind_is(ns, c, "array_type") {
        let mut cur = NodeCursor { root: c, pos: c };
        proof {
            lemma_moves(nv, c as int, c as int);
        }
        cur.first_child(ns);
        if c < cur.pos {
            return match parse_jtype(ns, bytes, cur.pos, tps) {
                Ok(j) => Ok(JType::Array(Box::new(j))),
                Err(e) => Err(e),
            };
        } else {
            return Err(ParseJavaError::UnknownJType(kind_of(ns, c), t));
        }
    }
    if kind_is(ns, c, "generic_type") {
        let mut cur = NodeCursor { root: c, pos: c };
        cur.first_child(ns);
        let class = match get_string(ns, bytes, cur.pos) {
            Ok(s) => s,
            Err(e) => {
                return Err(ParseJavaError::Utf8(e));
            },
        };
        cur.sibling(ns);
        cur.first_child(ns);
        cur.sibling(ns);
        if cur.pos <= c {
            return Err(ParseJavaError::UnknownJType(kind_of(ns, c), t));
        }
        let ghost start = cur.pos as int;
        assert(jtype_at(nv, bytes@, c as int, tv) == match type_args_from(nv, bytes@, c as int, start, tv) {
            Ok(args) => Ok(JTypeView::Generic(class@, args)),
            Err(e) => Err(e),
        });
        let mut args: Vec<JType> = Vec::new();
        proof {
            lemma_prepend(Seq::<JTypeView>::empty(), Seq::<JTypeView>::empty(), type_args_from(nv, bytes@, c as int, start, tv));
            assert(jtypes_view(args@) =~= Seq::<JTypeView>::empty());
        }
        loop
            invariant_except_break
                c < cur.pos < ns.len(),
                type_args_from(nv, bytes@, c as int, start, tv) == prepend(
                    jtypes_view(args@),
                    type_args_from(nv, bytes@, c as int, cur.pos as int, tv),
                ),
            invariant
                cur.root == c,
                jtype_at(nv, bytes@, c as int, tv) == match type_args_from(nv, bytes@, c as int, start, tv) {
                    Ok(args) => Ok(JTypeView::Generic(class@, args)),
                    Err(e) => Err(e),
                },
                nv == nodes_view(ns@),
                tv == strings_view(tps@),
                nv.len() == ns@.len(),
                well_placed(nodes_view(ns@), bytes@.len() as int),
            ensures
                type_args_from(nv, bytes@, c as int, start, tv) == Ok::<Seq<JTypeView>, JavaErr>(
                    jtypes_view(args@),
                ),
            decreases ns.len() - cur.pos,
        {
            let here = cur.pos;
            let ghost before = args@;
            let ghost mut h: Seq<JTypeView> = seq![];
            if !(kind_is(ns, here, ">") || kind_is(ns, here, ",")) {
                match parse_jtype(ns, bytes, here, tps) {
                    Ok(j) => {
                        proof {
                            h = seq![j@];
                        }
                        args.push(j);
                        proof {
                            assert(args@.drop_last() =~= before);
                            assert(jtypes_view(args@) =~= jtypes_view(before) + h);
                        }
                    },
                    Err(e) => {
                        assert(type_args_from(nv, bytes@, c as int, here as int, tv) == Err::<Seq<JTypeView>, JavaErr>(e@));
                        return Err(e);
                    },
                }
            } else {
                assert(jtypes_view(args@) =~= jtypes_view(before) + h);
            }
            proof {
                lemma_moves(nv, c as int, here as int);
            }
            let moved = cur.sibling(ns);
            proof {
                lemma_prepend(jtypes_view(before), h, type_args_from(nv, bytes@, c as int, cur.pos as int, tv));
                lemma_prepend(jtypes_view(before), h, Ok::<Seq<JTypeView>, JavaErr>(Seq::<JTypeView>::empty()));
                assert(h + Seq::<JTypeView>::empty() =~= h);
            }
            if !moved {
                break;
            }
        }
        return Ok(JType::Generic(class, args));
    }
    Err(ParseJavaError::UnknownJType(kind_of(ns, c), t))
}

} // verus!
