//! The members of a Java type read from its syntax tree: methods with their
//! parameters and thrown types, fields, constants and enum constants.
use vstd::prelude::*;

use crate::dto::{
    jtypes_view, params_view, Access, Field, FieldView, JType, JTypeView, Method,
    MethodView, ParamView, Parameter,
};
use crate::java::jtype::{jtype_at, parse_jtype, strings_view};
use crate::java::syntax::{
    down_pos, get_string, kind_at, kind_is, lemma_moves, next_pos, node_text, nodes_view, sibling,
    up_pos, well_placed, NodeCursor, NodeView, SyntaxNode,
};
use crate::java::{utf8_err, JavaErr, ParseJavaError};
use crate::text::{contains_seq, str_contains};

verus! {

/// The access flags that a modifiers text names: static, public and
/// private, each when its word occurs in the text.
pub open spec fn modifier_bits(t: Seq<char>) -> u16 {
    (if contains_seq(t, "static"@) {
        Access::Static
    } else {
        0u16
    }) | (if contains_seq(t, "public"@) {
        Access::Public
    } else {
        0u16
    }) | (if contains_seq(t, "private"@) {
        Access::Private
    } else {
        0u16
    })
}

pub fn parser_modifiers(input: String) -> (r: Access)
    ensures
        r.bits == modifier_bits(input@),
{
    let s: u16 = if str_contains(input.as_str(), "static") {
        Access::Static
    } else {
        0
    };
    let p: u16 = if str_contains(input.as_str(), "public") {
        Access::Public
    } else {
        0
    };
    let q: u16 = if str_contains(input.as_str(), "private") {
        Access::Private
    } else {
        0
    };
    Access::from_bits(s | p | q)
}

/// The name of the first type parameter in the type parameters at `c`;
/// the cursor ends on the parent of that parameter.
pub open spec fn type_parameters_at(ns: Seq<NodeView>, b: Seq<u8>, root: int, c: int) -> Result<
    (Seq<char>, int),
    JavaErr,
> {
    let d = next_pos(ns, root, down_pos(ns, root, c));
    match node_text(ns, b, d) {
        None => Err(utf8_err(ns, b, d)),
        Some(t) => Ok((t, up_pos(ns, root, d))),
    }
}

/// One formal parameter at `p`: its type after the modifiers, its name
/// after the type; the cursor ends on the parent of the name.
pub open spec fn formal_parameter_at(
    ns: Seq<NodeView>,
    b: Seq<u8>,
    root: int,
    p: int,
    tps: Seq<Seq<char>>,
) -> Result<(ParamView, int), JavaErr> {
    let d = down_pos(ns, root, p);
    let d2 = if kind_at(ns, d) == "modifiers"@ {
        next_pos(ns, root, d)
    } else {
        d
    };
    match jtype_at(ns, b, d2, tps) {
        Err(e) => Err(e),
        Ok(j) => {
            let d3 = next_pos(ns, root, d2);
            match node_text(ns, b, d3) {
                None => Err(utf8_err(ns, b, d3)),
                Some(name) => Ok((ParamView { name: Some(name), jtype: j }, up_pos(ns, root, d3))),
            }
        },
    }
}

/// The parameters among `p` and the siblings the cursor moves on to, after
/// `acc`; nodes other than formal parameters are passed over. The cursor
/// goes on while it moves past `p`.
pub open spec fn params_from(
    ns: Seq<NodeView>,
    b: Seq<u8>,
    root: int,
    p: int,
    acc: Seq<ParamView>,
    tps: Seq<Seq<char>>,
) -> Result<(Seq<ParamView>, int), JavaErr>
    decreases ns.len() - p,
{
    if p < 0 || p >= ns.len() {
        Ok((acc, p))
    } else {
        let here: Result<(Seq<ParamView>, int), JavaErr> = if kind_at(ns, p) == "formal_parameter"@ {
            match formal_parameter_at(ns, b, root, p, tps) {
                Ok((x, q)) => Ok((seq![x], q)),
                Err(e) => Err(e),
            }
        } else {
            Ok((seq![], p))
        };
        match here {
            Err(e) => Err(e),
            Ok((h, q)) => {
                let (moved, p2) = sibling(ns, root, q);
                if moved && p < p2 && p2 < ns.len() {
                    params_from(ns, b, root, p2, acc + h, tps)
                } else {
                    Ok((acc + h, p2))
                }
            },
        }
    }
}

/// The parameters in the formal parameters at `c`; the cursor ends on the
/// parent of where the list ends.
pub open spec fn formal_parameters_at(
    ns: Seq<NodeView>,
    b: Seq<u8>,
    root: int,
    c: int,
    tps: Seq<Seq<char>>,
) -> Result<(Seq<ParamView>, int), JavaErr> {
    let (moved, p) = sibling(ns, root, down_pos(ns, root, c));
    let inner = if moved {
        params_from(ns, b, root, p, seq![], tps)
    } else {
        Ok((seq![], p))
    };
    match inner {
        Ok((ps, e)) => Ok((ps, up_pos(ns, root, e))),
        Err(e) => Err(e),
    }
}

/// The thrown types among `p` and its siblings, after `acc`; `,` is
/// passed over.
pub open spec fn throws_from(
    ns: Seq<NodeView>,
    b: Seq<u8>,
    root: int,
    p: int,
    acc: Seq<JTypeView>,
) -> Result<(Seq<JTypeView>, int), JavaErr>
    decreases ns.len() - p,
{
    if p < 0 || p >= ns.len() {
        Ok((acc, p))
    } else {
        let here: Result<Seq<JTypeView>, JavaErr> = if kind_at(ns, p) == ","@ {
            Ok(seq![])
        } else {
            match jtype_at(ns, b, p, seq![]) {
                Ok(j) => Ok(seq![j]),
                Err(e) => Err(e),
            }
        };
        match here {
            Err(e) => Err(e),
            Ok(h) => {
                let (moved, p2) = sibling(ns, root, p);
                proof {
                    lemma_moves(ns, root, p);
                }
                if moved {
                    throws_from(ns, b, root, p2, acc + h)
                } else {
                    Ok((acc + h, p2))
                }
            },
        }
    }
}

/// The types that the throws clause at `c` lists; the cursor ends on the
/// parent of where the list ends.
pub open spec fn throws_at(ns: Seq<NodeView>, b: Seq<u8>, root: int, c: int) -> Result<
    (Seq<JTypeView>, int),
    JavaErr,
> {
    let (moved, p) = sibling(ns, root, down_pos(ns, root, c));
    let inner = if moved {
        throws_from(ns, b, root, p, seq![])
    } else {
        Ok((seq![], p))
    };
    match inner {
        Ok((ts, e)) => Ok((ts, up_pos(ns, root, e))),
        Err(e) => Err(e),
    }
}

pub open spec fn empty_method() -> MethodView {
    MethodView {
        access: 0,
        name: seq![],
        parameters: seq![],
        throws: seq![],
        ret: JTypeView::Void,
        source: None,
    }
}

/// A method declared in an interface at `c`: after the modifiers, the type
/// parameter (a type of that name is a type parameter), the return type,
/// the name, the parameters and what it throws. The cursor ends on the
/// parent of where it stood last.
pub open spec fn interface_method_at(ns: Seq<NodeView>, b: Seq<u8>, root: int, c: int) -> Result<
    (MethodView, int),
    JavaErr,
> {
    let d0 = down_pos(ns, root, c);
    let d1 = if kind_at(ns, d0) == "modifiers"@ {
        next_pos(ns, root, d0)
    } else {
        d0
    };
    let tp: Result<(Seq<Seq<char>>, int), JavaErr> = if kind_at(ns, d1) == "type_parameters"@ {
        match type_parameters_at(ns, b, root, d1) {
            Ok((name, q)) => Ok((seq![name], next_pos(ns, root, q))),
            Err(e) => Err(e),
        }
    } else {
        Ok((seq![], d1))
    };
    match tp {
        Err(e) => Err(e),
        Ok((tps, d2)) => match jtype_at(ns, b, d2, tps) {
            Err(e) => Err(e),
            Ok(ret) => {
                let d3 = next_pos(ns, root, d2);
                match node_text(ns, b, d3) {
                    None => Err(utf8_err(ns, b, d3)),
                    Some(name) => match formal_parameters_at(
                        ns,
                        b,
                        root,
                        next_pos(ns, root, d3),
                        tps,
                    ) {
                        Err(e) => Err(e),
                        Ok((params, d5)) => {
                            let d6 = next_pos(ns, root, d5);
                            let th: Result<(Seq<JTypeView>, int), JavaErr> = if kind_at(ns, d6)
                                == "throws"@ {
                                throws_at(ns, b, root, d6)
                            } else {
                                Ok((seq![], d6))
                            };
                            match th {
                                Err(e) => Err(e),
                                Ok((throws, d7)) => Ok(
                                    (
                                        MethodView {
                                            access: 0,
                                            name,
                                            parameters: params,
                                            throws,
                                            ret,
                                            source: None,
                                        },
                                        up_pos(ns, root, d7),
                                    ),
                                ),
                            }
                        },
                    },
                }
            },
        },
    }
}

/// A constant declared in an interface at `c`: its type after the
/// modifiers, its name in the declarator that follows; the cursor ends two
/// levels up from the name.
pub open spec fn interface_constant_at(ns: Seq<NodeView>, b: Seq<u8>, root: int, c: int) -> Result<
    (FieldView, int),
    JavaErr,
> {
    let d0 = down_pos(ns, root, c);
    let d1 = if kind_at(ns, d0) == "modifiers"@ {
        next_pos(ns, root, d0)
    } else {
        d0
    };
    match jtype_at(ns, b, d1, seq![]) {
        Err(e) => Err(e),
        Ok(j) => {
            let d2 = down_pos(ns, root, next_pos(ns, root, d1));
            match node_text(ns, b, d2) {
                None => Err(utf8_err(ns, b, d2)),
                Some(name) => Ok(
                    (
                        FieldView { access: 0, name, jtype: j, source: None },
                        up_pos(ns, root, up_pos(ns, root, d2)),
                    ),
                ),
            }
        },
    }
}

/// An enum constant at `c`: the text of its first child, of no type.
pub open spec fn enum_constant_at(ns: Seq<NodeView>, b: Seq<u8>, c: int) -> Result<
    FieldView,
    JavaErr,
> {
    match node_text(ns, b, down_pos(ns, c, c)) {
        None => Err(utf8_err(ns, b, down_pos(ns, c, c))),
        Some(name) => Ok(FieldView { access: 0, name, jtype: JTypeView::Void, source: None }),
    }
}

/// An element of an annotation type at `c`: the type of its first child,
/// the name that follows.
pub open spec fn annotation_element_at(ns: Seq<NodeView>, b: Seq<u8>, c: int) -> Result<
    FieldView,
    JavaErr,
> {
    let d = down_pos(ns, c, c);
    match jtype_at(ns, b, d, seq![]) {
        Err(e) => Err(e),
        Ok(j) => match node_text(ns, b, next_pos(ns, c, d)) {
            None => Err(utf8_err(ns, b, next_pos(ns, c, d))),
            Some(name) => Ok(FieldView { access: 0, name, jtype: j, source: None }),
        },
    }
}

/// The method that the children from `p` on make of `acc`: modifiers give
/// the access, the identifier the name, the formal parameters and the
/// throws clause theirs; a block or type parameters change nothing; any
/// other child is the return type.
pub open spec fn method_from(ns: Seq<NodeView>, b: Seq<u8>, root: int, p: int, acc: MethodView) -> Result<
    MethodView,
    JavaErr,
>
    decreases ns.len() - p,
{
    if p < 0 || p >= ns.len() {
        Ok(acc)
    } else {
        let k = kind_at(ns, p);
        let here: Result<(MethodView, int), JavaErr> = if k == "modifiers"@ {
            match node_text(ns, b, p) {
                None => Err(utf8_err(ns, b, p)),
                Some(t) => Ok((MethodView { access: modifier_bits(t), ..acc }, p)),
            }
        } else if k == "identifier"@ {
            match node_text(ns, b, p) {
                None => Err(utf8_err(ns, b, p)),
                Some(t) => Ok((MethodView { name: t, ..acc }, p)),
            }
        } else if k == "formal_parameters"@ {
            match formal_parameters_at(ns, b, root, p, seq![]) {
                Ok((ps, q)) => Ok((MethodView { parameters: ps, ..acc }, q)),
                Err(e) => Err(e),
            }
        } else if k == "block"@ || k == "type_parameters"@ {
            Ok((acc, p))
        } else if k == "throws"@ {
            match throws_at(ns, b, root, p) {
                Ok((ts, q)) => Ok((MethodView { throws: ts, ..acc }, q)),
                Err(e) => Err(e),
            }
        } else {
            match jtype_at(ns, b, p, seq![]) {
                Ok(j) => Ok((MethodView { ret: j, ..acc }, p)),
                Err(e) => Err(e),
            }
        };
        match here {
            Err(e) => Err(e),
            Ok((m, q)) => {
                let (moved, p2) = sibling(ns, root, q);
                if moved && p < p2 && p2 < ns.len() {
                    method_from(ns, b, root, p2, m)
                } else {
                    Ok(m)
                }
            },
        }
    }
}

/// The method declared at `c`, read from its children.
pub open spec fn method_at(ns: Seq<NodeView>, b: Seq<u8>, c: int) -> Result<MethodView, JavaErr> {
    method_from(ns, b, c, down_pos(ns, c, c), empty_method())
}

pub open spec fn empty_field() -> FieldView {
    FieldView { access: 0, name: seq![], jtype: JTypeView::Void, source: None }
}

/// The field that the children from `p` on make of `acc`: modifiers give
/// the access, a declarator its first child as the name, `;` changes
/// nothing and any other child is the type.
pub open spec fn field_from(ns: Seq<NodeView>, b: Seq<u8>, root: int, p: int, acc: FieldView) -> Result<
    FieldView,
    JavaErr,
>
    decreases ns.len() - p,
{
    if p < 0 || p >= ns.len() {
        Ok(acc)
    } else {
        let k = kind_at(ns, p);
        let here: Result<(FieldView, int), JavaErr> = if k == "modifiers"@ {
            match node_text(ns, b, p) {
                None => Err(utf8_err(ns, b, p)),
                Some(t) => Ok((FieldView { access: modifier_bits(t), ..acc }, p)),
            }
        } else if k == "variable_declarator"@ {
            let d = down_pos(ns, root, p);
            match node_text(ns, b, d) {
                None => Err(utf8_err(ns, b, d)),
                Some(t) => Ok((FieldView { name: t, ..acc }, up_pos(ns, root, d))),
            }
        } else if k == ";"@ {
            Ok((acc, p))
        } else {
            match jtype_at(ns, b, p, seq![]) {
                Ok(j) => Ok((FieldView { jtype: j, ..acc }, p)),
                Err(e) => Err(e),
            }
        };
        match here {
            Err(e) => Err(e),
            Ok((f, q)) => {
                let (moved, p2) = sibling(ns, root, q);
                if moved && p < p2 && p2 < ns.len() {
                    field_from(ns, b, root, p2, f)
                } else {
                    Ok(f)
                }
            },
        }
    }
}

/// The field declared at `c`, read from its children.
pub open spec fn field_at(ns: Seq<NodeView>, b: Seq<u8>, c: int) -> Result<FieldView, JavaErr> {
    field_from(ns, b, c, down_pos(ns, c, c), empty_field())
}

fn parse_type_parameters(
    ns: &Vec<SyntaxNode>,
    bytes: &[u8],
    cursor: &mut NodeCursor,
    type_parameters: &mut Vec<String>,
) -> (r: Result<(), ParseJavaError>)
    requires
        old(cursor).pos < ns.len(),
        well_placed(nodes_view(ns@), bytes@.len() as int),
    ensures
        final(cursor).root == old(cursor).root,
        final(cursor).pos < ns.len(),
        match type_parameters_at(
            nodes_view(ns@),
            bytes@,
            old(cursor).root as int,
            old(cursor).pos as int,
        ) {
            Ok((t, q)) => r is Ok && strings_view(final(type_parameters)@) == strings_view(
                old(type_parameters)@,
            ).push(t) && final(cursor).pos == q,
            Err(e) => r matches Err(x) && x@ == e,
        },
{
    cursor.first_child(ns);
    cursor.sibling(ns);
    let name = match get_string(ns, bytes, cursor.pos) {
        Ok(s) => s,
        Err(e) => {
            return Err(ParseJavaError::Utf8(e));
        },
    };
    let ghost before = type_parameters@;
    type_parameters.push(name);
    assert(strings_view(type_parameters@) =~= strings_view(before).push(name@));
    cursor.parent(ns);
    Ok(())
}

fn parse_formal_parameter(
    ns: &Vec<SyntaxNode>,
    bytes: &[u8],
    cursor: &mut NodeCursor,
    tps: &Vec<String>,
) -> (r: Result<Parameter, ParseJavaError>)
    requires
        old(cursor).pos < ns.len(),
        well_placed(nodes_view(ns@), bytes@.len() as int),
    ensures
        final(cursor).root == old(cursor).root,
        final(cursor).pos < ns.len(),
        match formal_parameter_at(
            nodes_view(ns@),
            bytes@,
            old(cursor).root as int,
            old(cursor).pos as int,
            strings_view(tps@),
        ) {
            Ok((x, q)) => r matches Ok(y) && y@ == x && final(cursor).pos == q,
            Err(e) => r matches Err(y) && y@ == e,
        },
{
    cursor.first_child(ns);
    if kind_is(ns, cursor.pos, "modifiers") {
        cursor.sibling(ns);
    }
    let jtype = match parse_jtype(ns, bytes, cursor.pos, tps) {
        Ok(j) => j,
        Err(e) => {
            return Err(e);
        },
    };
    cursor.sibling(ns);
    let name = match get_string(ns, bytes, cursor.pos) {
        Ok(s) => s,
        Err(e) => {
            return Err(ParseJavaError::Utf8(e));
        },
    };
    cursor.parent(ns);
    Ok(Parameter { name: Some(name), jtype })
}

/// Reads the parameters in the formal parameters at the cursor (see
/// `formal_parameters_at`).
pub fn parse_formal_parameters(
    ns: &Vec<SyntaxNode>,
    bytes: &[u8],
    cursor: &mut NodeCursor,
    tps: &Vec<String>,
) -> (r: Result<Vec<Parameter>, ParseJavaError>)
    requires
        old(cursor).pos < ns.len(),
        well_placed(nodes_view(ns@), bytes@.len() as int),
    ensures
        final(cursor).root == old(cursor).root,
        final(cursor).pos < ns.len(),
        match formal_parameters_at(
            nodes_view(ns@),
            bytes@,
            old(cursor).root as int,
            old(cursor).pos as int,
            strings_view(tps@),
        ) {
            Ok((ps, q)) => r matches Ok(v) && params_view(v@) == ps && final(cursor).pos == q,
            Err(e) => r matches Err(x) && x@ == e,
        },
{
    let ghost nv = nodes_view(ns@);
    let ghost root = cursor.root as int;
    let ghost c0 = cursor.pos as int;
    let ghost tv = strings_view(tps@);
    let mut out: Vec<Parameter> = Vec::new();
    cursor.first_child(ns);
    let moved = cursor.sibling(ns);
    if moved {
        let ghost start = cursor.pos as int;
        assert(params_view(out@) =~= Seq::<ParamView>::empty());
        loop
            invariant_except_break
                params_from(nv, bytes@, root, start, seq![], tv) == params_from(
                    nv,
                    bytes@,
                    root,
                    cursor.pos as int,
                    params_view(out@),
                    tv,
                ),
            invariant
                cursor.pos < ns.len(),
                cursor.root == root,
                old(cursor).root == root,
                old(cursor).pos == c0,
                nv == nodes_view(ns@),
                tv == strings_view(tps@),
                well_placed(nodes_view(ns@), bytes@.len() as int),
                formal_parameters_at(nv, bytes@, root, c0, tv) == match params_from(
                    nv,
                    bytes@,
                    root,
                    start,
                    seq![],
                    tv,
                ) {
                    Ok((ps, e)) => Ok((ps, up_pos(nv, root, e))),
                    Err(e) => Err(e),
                },
            ensures
                params_from(nv, bytes@, root, start, seq![], tv) == Ok::<
                    (Seq<ParamView>, int),
                    JavaErr,
                >((params_view(out@), cursor.pos as int)),
            decreases ns.len() - cursor.pos,
        {
            let head = cursor.pos;
            let ghost before = out@;
            if kind_is(ns, head, "formal_parameter") {
                match parse_formal_parameter(ns, bytes, cursor, tps) {
                    Ok(x) => {
                        let ghost xv = x@;
                        out.push(x);
                        assert(params_view(out@) =~= params_view(before) + seq![xv]);
                    },
                    Err(e) => {
                        return Err(e);
                    },
                }
            } else {
                assert(params_view(out@) =~= params_view(before) + Seq::<ParamView>::empty());
            }
            let moved2 = cursor.sibling(ns);
            if !(moved2 && head < cursor.pos) {
                break;
            }
        }
    }
    cursor.parent(ns);
    Ok(out)
}

/// Reads the types that the throws clause at the cursor lists (see
/// `throws_at`).
pub fn parse_throws(ns: &Vec<SyntaxNode>, bytes: &[u8], cursor: &mut NodeCursor) -> (r: Result<
    Vec<JType>,
    ParseJavaError,
>)
    requires
        old(cursor).pos < ns.len(),
        well_placed(nodes_view(ns@), bytes@.len() as int),
    ensures
        final(cursor).root == old(cursor).root,
        final(cursor).pos < ns.len(),
        match throws_at(nodes_view(ns@), bytes@, old(cursor).root as int, old(cursor).pos as int) {
            Ok((ts, q)) => r matches Ok(v) && jtypes_view(v@) == ts && final(cursor).pos == q,
            Err(e) => r matches Err(x) && x@ == e,
        },
{
    let ghost nv = nodes_view(ns@);
    let ghost root = cursor.root as int;
    let ghost c0 = cursor.pos as int;
    let none: Vec<String> = Vec::new();
    assert(strings_view(none@) =~= Seq::<Seq<char>>::empty());
    let mut out: Vec<JType> = Vec::new();
    cursor.first_child(ns);
    let moved = cursor.sibling(ns);
    if moved {
        let ghost start = cursor.pos as int;
        assert(jtypes_view(out@) =~= Seq::<JTypeView>::empty());
        loop
            invariant_except_break
                throws_from(nv, bytes@, root, start, seq![]) == throws_from(
                    nv,
                    bytes@,
                    root,
                    cursor.pos as int,
                    jtypes_view(out@),
                ),
            invariant
                cursor.pos < ns.len(),
                cursor.root == root,
                old(cursor).root == root,
                old(cursor).pos == c0,
                nv == nodes_view(ns@),
                strings_view(none@) == Seq::<Seq<char>>::empty(),
                well_placed(nodes_view(ns@), bytes@.len() as int),
                throws_at(nv, bytes@, root, c0) == match throws_from(nv, bytes@, root, start, seq![]) {
                    Ok((ts, e)) => Ok((ts, up_pos(nv, root, e))),
                    Err(e) => Err(e),
                },
            ensures
                throws_from(nv, bytes@, root, start, seq![]) == Ok::<(Seq<JTypeView>, int), JavaErr>(
                    (jtypes_view(out@), cursor.pos as int),
                ),
            decreases ns.len() - cursor.pos,
        {
            let head = cursor.pos;
            let ghost before = out@;
            if !kind_is(ns, head, ",") {
                match parse_jtype(ns, bytes, head, &none) {
                    Ok(j) => {
                        let ghost jv = j@;
                        out.push(j);
                        assert(out@.drop_last() =~= before);
                        assert(jtypes_view(out@) =~= jtypes_view(before) + seq![jv]);
                    },
                    Err(e) => {
                        return Err(e);
                    },
                }
            } else {
                assert(jtypes_view(out@) =~= jtypes_view(before) + Seq::<JTypeView>::empty());
            }
            proof {
                lemma_moves(nv, root, head as int);
            }
            let moved2 = cursor.sibling(ns);
            if !moved2 {
                break;
            }
        }
    }
    cursor.parent(ns);
    Ok(out)
}

/// Reads the method declared in an interface at the cursor (see
/// `interface_method_at`).
pub fn parse_interface_method(ns: &Vec<SyntaxNode>, bytes: &[u8], cursor: &mut NodeCursor) -> (r: Result<
    Method,
    ParseJavaError,
>)
    requires
        old(cursor).pos < ns.len(),
        well_placed(nodes_view(ns@), bytes@.len() as int),
    ensures
        final(cursor).root == old(cursor).root,
        final(cursor).pos < ns.len(),
        match interface_method_at(
            nodes_view(ns@),
            bytes@,
            old(cursor).root as int,
            old(cursor).pos as int,
        ) {
            Ok((m, q)) => r matches Ok(x) && x@ == m && final(cursor).pos == q,
            Err(e) => r matches Err(x) && x@ == e,
        },
{
    let ghost nv = nodes_view(ns@);
    cursor.first_child(ns);
    if kind_is(ns, cursor.pos, "modifiers") {
        cursor.sibling(ns);
    }
    let mut type_parameters: Vec<String> = Vec::new();
    assert(strings_view(type_parameters@) =~= Seq::<Seq<char>>::empty());
    if kind_is(ns, cursor.pos, "type_parameters") {
        match parse_type_parameters(ns, bytes, cursor, &mut type_parameters) {
            Ok(()) => {},
            Err(e) => {
                return Err(e);
            },
        }
        assert(strings_view(type_parameters@) =~= seq![strings_view(type_parameters@)[0]]);
        cursor.sibling(ns);
    }
    let jtype = match parse_jtype(ns, bytes, cursor.pos, &type_parameters) {
        Ok(j) => j,
        Err(e) => {
            return Err(e);
        },
    };
    cursor.sibling(ns);
    let name = match get_string(ns, bytes, cursor.pos) {
        Ok(s) => s,
        Err(e) => {
            return Err(ParseJavaError::Utf8(e));
        },
    };
    cursor.sibling(ns);
    let parameters = match parse_formal_parameters(ns, bytes, cursor, &type_parameters) {
        Ok(ps) => ps,
        Err(e) => {
            return Err(e);
        },
    };
    let mut method = Method {
        access: Access::empty(),
        name,
        parameters,
        throws: Vec::new(),
        ret: jtype,
        source: None,
    };
    assert(jtypes_view(method.throws@) =~= Seq::<JTypeView>::empty());
    cursor.sibling(ns);
    if kind_is(ns, cursor.pos, "throws") {
        method.throws = match parse_throws(ns, bytes, cursor) {
            Ok(ts) => ts,
            Err(e) => {
                return Err(e);
            },
        };
    }
    cursor.parent(ns);
    Ok(method)
}

/// Reads the constant declared in an interface at the cursor (see
/// `interface_constant_at`).
pub fn parse_interface_constant(ns: &Vec<SyntaxNode>, bytes: &[u8], cursor: &mut NodeCursor) -> (r: Result<
    Field,
    ParseJavaError,
>)
    requires
        old(cursor).pos < ns.len(),
        well_placed(nodes_view(ns@), bytes@.len() as int),
    ensures
        final(cursor).root == old(cursor).root,
        final(cursor).pos < ns.len(),
        match interface_constant_at(
            nodes_view(ns@),
            bytes@,
            old(cursor).root as int,
            old(cursor).pos as int,
        ) {
            Ok((f, q)) => r matches Ok(x) && x@ == f && final(cursor).pos == q,
            Err(e) => r matches Err(x) && x@ == e,
        },
{
    let none: Vec<String> = Vec::new();
    assert(strings_view(none@) =~= Seq::<Seq<char>>::empty());
    cursor.first_child(ns);
    if kind_is(ns, cursor.pos, "modifiers") {
        cursor.sibling(ns);
    }
    let jtype = match parse_jtype(ns, bytes, cursor.pos, &none) {
        Ok(j) => j,
        Err(e) => {
            return Err(e);
        },
    };
    cursor.sibling(ns);
    cursor.first_child(ns);
    let name = match get_string(ns, bytes, cursor.pos) {
        Ok(s) => s,
        Err(e) => {
            return Err(ParseJavaError::Utf8(e));
        },
    };
    cursor.parent(ns);
    cursor.parent(ns);
    Ok(Field { access: Access::empty(), name, jtype, source: None })
}

/// Reads the enum constant at `c` (see `enum_constant_at`).
pub fn parse_enum_constant(ns: &Vec<SyntaxNode>, bytes: &[u8], c: usize) -> (r: Result<
    Field,
    ParseJavaError,
>)
    requires
        c < ns.len(),
        well_placed(nodes_view(ns@), bytes@.len() as int),
    ensures
        match enum_constant_at(nodes_view(ns@), bytes@, c as int) {
            Ok(f) => r matches Ok(x) && x@ == f,
            Err(e) => r matches Err(x) && x@ == e,
        },
{
    let mut cursor = NodeCursor { root: c, pos: c };
    cursor.first_child(ns);
    let name = match get_string(ns, bytes, cursor.pos) {
        Ok(s) => s,
        Err(e) => {
            return Err(ParseJavaError::Utf8(e));
        },
    };
    Ok(Field { access: Access::empty(), name, jtype: JType::Void, source: None })
}

/// Reads the element of an annotation type at `c` (see
/// `annotation_element_at`).
pub fn parse_annotation_type_element_declaration(ns: &Vec<SyntaxNode>, bytes: &[u8], c: usize) -> (r:
    Result<Field, ParseJavaError>)
    requires
        c < ns.len(),
        well_placed(nodes_view(ns@), bytes@.len() as int),
    ensures
        match annotation_element_at(nodes_view(ns@), bytes@, c as int) {
            Ok(f) => r matches Ok(x) && x@ == f,
            Err(e) => r matches Err(x) && x@ == e,
        },
{
    let none: Vec<String> = Vec::new();
    assert(strings_view(none@) =~= Seq::<Seq<char>>::empty());
    let mut cursor = NodeCursor { root: c, pos: c };
    cursor.first_child(ns);
    let jtype = match parse_jtype(ns, bytes, cursor.pos, &none) {
        Ok(j) => j,
        Err(e) => {
            return Err(e);
        },
    };
    cursor.sibling(ns);
    let name = match get_string(ns, bytes, cursor.pos) {
        Ok(s) => s,
        Err(e) => {
            return Err(ParseJavaError::Utf8(e));
        },
    };
    Ok(Field { access: Access::empty(), name, jtype, source: None })
}

/// Reads the method declared at `c` (see `method_at`).
pub fn parse_method(ns: &Vec<SyntaxNode>, bytes: &[u8], c: usize) -> (r: Result<
    Method,
    ParseJavaError,
>)
    requires
        c < ns.len(),
        well_placed(nodes_view(ns@), bytes@.len() as int),
    ensures
        match method_at(nodes_view(ns@), bytes@, c as int) {
            Ok(m) => r matches Ok(x) && x@ == m,
            Err(e) => r matches Err(x) && x@ == e,
        },
{
    let ghost nv = nodes_view(ns@);
    let none: Vec<String> = Vec::new();
    assert(strings_view(none@) =~= Seq::<Seq<char>>::empty());
    let mut cursor = NodeCursor { root: c, pos: c };
    cursor.first_child(ns);
    let ghost start = cursor.pos as int;
    let mut method = Method {
        access: Access::empty(),
        name: String::new(),
        parameters: Vec::new(),
        throws: Vec::new(),
        ret: JType::Void,
        source: None,
    };
    assert(method@ =~= empty_method()) by {
        assert(params_view(method.parameters@) =~= Seq::<ParamView>::empty());
        assert(jtypes_view(method.throws@) =~= Seq::<JTypeView>::empty());
    }
    loop
        invariant_except_break
            method_from(nv, bytes@, c as int, start, empty_method()) == method_from(
                nv,
                bytes@,
                c as int,
                cursor.pos as int,
                method@,
            ),
        invariant
            cursor.pos < ns.len(),
            cursor.root == c,
            nv == nodes_view(ns@),
            strings_view(none@) == Seq::<Seq<char>>::empty(),
            well_placed(nodes_view(ns@), bytes@.len() as int),
            method_at(nv, bytes@, c as int) == method_from(nv, bytes@, c as int, start, empty_method()),
        ensures
            method_from(nv, bytes@, c as int, start, empty_method()) == Ok::<MethodView, JavaErr>(
                method@,
            ),
        decreases ns.len() - cursor.pos,
    {
        let head = cursor.pos;
        if kind_is(ns, head, "modifiers") {
            let t = match get_string(ns, bytes, head) {
                Ok(s) => s,
                Err(e) => {
                    return Err(ParseJavaError::Utf8(e));
                },
            };
            method.access = parser_modifiers(t);
        } else if kind_is(ns, head, "identifier") {
            method.name = match get_string(ns, bytes, head) {
                Ok(s) => s,
                Err(e) => {
                    return Err(ParseJavaError::Utf8(e));
                },
            };
        } else if kind_is(ns, head, "formal_parameters") {
            method.parameters = match parse_formal_parameters(ns, bytes, &mut cursor, &none) {
                Ok(ps) => ps,
                Err(e) => {
                    return Err(e);
                },
            };
        } else if kind_is(ns, head, "block") || kind_is(ns, head, "type_parameters") {
        } else if kind_is(ns, head, "throws") {
            method.throws = match parse_throws(ns, bytes, &mut cursor) {
                Ok(ts) => ts,
                Err(e) => {
                    return Err(e);
                },
            };
        } else {
            method.ret = match parse_jtype(ns, bytes, head, &none) {
                Ok(j) => j,
                Err(e) => {
                    return Err(e);
                },
            };
        }
        let moved = cursor.sibling(ns);
        if !(moved && head < cursor.pos) {
            break;
        }
    }
    Ok(method)
}

/// Reads the field declared at `c` (see `field_at`).
pub fn parse_field(ns: &Vec<SyntaxNode>, bytes: &[u8], c: usize) -> (r: Result<Field, ParseJavaError>)
    requires
        c < ns.len(),
        well_placed(nodes_view(ns@), bytes@.len() as int),
    ensures
        match field_at(nodes_view(ns@), bytes@, c as int) {
            Ok(f) => r matches Ok(x) && x@ == f,
            Err(e) => r matches Err(x) && x@ == e,
        },
{
    let ghost nv = nodes_view(ns@);
    let none: Vec<String> = Vec::new();
    assert(strings_view(none@) =~= Seq::<Seq<char>>::empty());
    let mut cursor = NodeCursor { root: c, pos: c };
    cursor.first_child(ns);
    let ghost start = cursor.pos as int;
    let mut field = Field { access: Access::empty(), name: String::new(), jtype: JType::Void, source: None };
    assert(field@ =~= empty_field());
    loop
        invariant_except_break
            field_from(nv, bytes@, c as int, start, empty_field()) == field_from(
                nv,
                bytes@,
                c as int,
                cursor.pos as int,
                field@,
            ),
        invariant
            cursor.pos < ns.len(),
            cursor.root == c,
            nv == nodes_view(ns@),
            strings_view(none@) == Seq::<Seq<char>>::empty(),
            well_placed(nodes_view(ns@), bytes@.len() as int),
            field_at(nv, bytes@, c as int) == field_from(nv, bytes@, c as int, start, empty_field()),
        ensures
            field_from(nv, bytes@, c as int, start, empty_field()) == Ok::<FieldView, JavaErr>(
                field@,
            ),
        decreases ns.len() - cursor.pos,
    {
        let head = cursor.pos;
        if kind_is(ns, head, "modifiers") {
            let t = match get_string(ns, bytes, head) {
                Ok(s) => s,
                Err(e) => {
                    return Err(ParseJavaError::Utf8(e));
                },
            };
            field.access = parser_modifiers(t);
        } else if kind_is(ns, head, "variable_declarator") {
            cursor.first_child(ns);
            field.name = match get_string(ns, bytes, cursor.pos) {
                Ok(s) => s,
                Err(e) => {
                    return Err(ParseJavaError::Utf8(e));
                },
            };
            cursor.parent(ns);
        } else if kind_is(ns, head, ";") {
        } else {
            field.jtype = match parse_jtype(ns, bytes, head, &none) {
                Ok(j) => j,
                Err(e) => {
                    return Err(e);
                },
            };
        }
        let moved = cursor.sibling(ns);
        if !(moved && head < cursor.pos) {
            break;
        }
    }
    Ok(field)
}

} // verus!
