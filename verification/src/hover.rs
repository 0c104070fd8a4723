//! How fields and methods are written in hover text.
use vstd::prelude::*;

use crate::dto::{
    display, jtypes_view, lemma_jtypes_view_len, params_view, Class, ClassView, Field, FieldView, JType, JTypeView,
    Method, MethodView, ParamView, Parameter,
};
use crate::call_chain_ranges::{
    chain_view, lemma_chain_view_index, lemma_chain_view_len, lemma_params_view_index, lemma_params_view_len,
    link_at, validate, CallItem, ItemView,
};
use crate::dto::{copy_method, fields_view, methods_view, ImportUnit, ImportView, imports_view};
use crate::java::syntax::spec_java_syntax;
use crate::java::{class_at, load_java, JavaErr, ParseJavaError};
use crate::loader::{SourceDestination, SourceView};
use crate::treesitter::{Point, Range, TreesitterError};
use crate::tyres::parent::class_map_contents;
use crate::tyres::{
    all_end_within, find_field, find_var, first_field, first_var, parents_end, parents_end_within,
    resolve_call_chain_to_point, to_point_result,
    StateView, TyresError, TyresErrorView,
};
use crate::variable::{vars_view, VarView};
use dashmap::DashMap;
use crate::variable::LocalVariable;
use crate::text::push_char;

verus! {

/// `type name`.
pub open spec fn spec_format_field(f: Field) -> Seq<char> {
    display(f.jtype@) + seq![' '] + f.name@
}

/// A parameter: its type, and its name after a space when it has one.
pub open spec fn param_text(p: Parameter) -> Seq<char> {
    match p.name {
        None => display(p.jtype@),
        Some(n) => display(p.jtype@) + seq![' '] + n@,
    }
}

/// Parameters written one after another with `, ` between them.
pub open spec fn params_text(ps: Seq<Parameter>) -> Seq<char>
    decreases ps.len(),
{
    if ps.len() == 0 {
        seq![]
    } else if ps.len() == 1 {
        param_text(ps[0])
    } else {
        params_text(ps.drop_last()) + ", "@ + param_text(ps.last())
    }
}

/// Types written one after another with `, ` between them.
pub open spec fn types_text(ts: Seq<JType>) -> Seq<char>
    decreases ts.len(),
{
    if ts.len() == 0 {
        seq![]
    } else if ts.len() == 1 {
        display(ts[0]@)
    } else {
        types_text(ts.drop_last()) + ", "@ + display(ts.last()@)
    }
}

/// `ret name(params)`, with ` throws a, b` after it when it throws.
pub open spec fn spec_format_method(m: Method) -> Seq<char> {
    let head = display(m.ret@) + seq![' '] + m.name@ + seq!['('] + params_text(m.parameters@) + seq![')'];
    if m.throws@.len() == 0 {
        head
    } else {
        head + " throws "@ + types_text(m.throws@)
    }
}

pub fn format_field(f: &Field) -> (r: String)
    ensures
        r@ == spec_format_field(*f),
{
    let mut out = f.jtype.display_string();
    push_char(&mut out, ' ');
    out.append(f.name.as_str());
    out
}

fn write_param(p: &Parameter, out: &mut String)
    ensures
        final(out)@ == old(out)@ + param_text(*p),
{
    let t = p.jtype.display_string();
    out.append(t.as_str());
    match &p.name {
        None => {},
        Some(name) => {
            let ghost before = out@;
            push_char(out, ' ');
            out.append(name.as_str());
            assert(out@ =~= before + (seq![' '] + name@));
        },
    }
    assert(out@ =~= old(out)@ + param_text(*p));
}

pub fn format_method(m: &Method) -> (r: String)
    ensures
        r@ == spec_format_method(*m),
{
    let mut out = m.ret.display_string();
    push_char(&mut out, ' ');
    out.append(m.name.as_str());
    push_char(&mut out, '(');
    let ghost head = out@;
    let mut k: usize = 0;
    assert(m.parameters@.take(0) =~= Seq::<Parameter>::empty());
    assert(out@ =~= head + params_text(m.parameters@.take(0)));
    while k < m.parameters.len()
        invariant
            k <= m.parameters.len(),
            out@ == head + params_text(m.parameters@.take(k as int)),
        decreases m.parameters.len() - k,
    {
        if k > 0 {
            out.append(", ");
        }
        write_param(&m.parameters[k], &mut out);
        proof {
            let t = m.parameters@.take(k + 1);
            assert(t.drop_last() =~= m.parameters@.take(k as int));
            if k == 0 {
                assert(params_text(m.parameters@.take(0)) =~= Seq::<char>::empty());
            }
            assert(out@ =~= head + params_text(t));
        }
        k += 1;
    }
    assert(m.parameters@.take(k as int) =~= m.parameters@);
    push_char(&mut out, ')');
    if m.throws.len() == 0 {
        assert(out@ =~= spec_format_method(*m));
        return out;
    }
    out.append(" throws ");
    let ghost head2 = out@;
    let mut j: usize = 0;
    assert(m.throws@.take(0) =~= Seq::<JType>::empty());
    assert(out@ =~= head2 + types_text(m.throws@.take(0)));
    while j < m.throws.len()
        invariant
            j <= m.throws.len(),
            out@ == head2 + types_text(m.throws@.take(j as int)),
        decreases m.throws.len() - j,
    {
        if j > 0 {
            out.append(", ");
        }
        let t = m.throws[j].display_string();
        out.append(t.as_str());
        proof {
            let tk = m.throws@.take(j + 1);
            assert(tk.drop_last() =~= m.throws@.take(j as int));
            if j == 0 {
                assert(types_text(m.throws@.take(0)) =~= Seq::<char>::empty());
            }
            assert(out@ =~= head2 + types_text(tk));
        }
        j += 1;
    }
    assert(m.throws@.take(j as int) =~= m.throws@);
    assert(out@ =~= spec_format_method(*m));
    out
}

/// Hover text, in Markdown, for a range of the document.
#[derive(Debug, PartialEq)]
pub struct Hover {
    pub value: String,
    pub range: Range,
}

/// Texts one after another with a line break between them.
pub open spec fn lines_text(ts: Seq<Seq<char>>) -> Seq<char>
    decreases ts.len(),
{
    if ts.len() == 0 {
        seq![]
    } else if ts.len() == 1 {
        ts[0]
    } else {
        lines_text(ts.drop_last()) + seq!['\n'] + ts.last()
    }
}

/// `type name`, with `()` after a method's name.
pub open spec fn spec_format_variable(v: LocalVariable) -> Seq<char> {
    display(v.jtype@) + seq![' '] + v.name@ + if v.is_fun {
        "()"@
    } else {
        seq![]
    }
}

pub open spec fn methods_text(ms: Seq<Method>) -> Seq<Seq<char>> {
    ms.map_values(|m: Method| spec_format_method(m))
}

/// A class's name as a heading, then its methods in a Java code block.
pub open spec fn class_text(c: Class) -> Seq<char> {
    "# "@ + c.name@ + "\n```java\n"@ + lines_text(methods_text(c.methods@)) + "\n```"@
}

pub fn format_variable_hoveer(var: &LocalVariable) -> (r: String)
    ensures
        r@ == spec_format_variable(*var),
{
    let mut out = var.jtype.display_string();
    push_char(&mut out, ' ');
    out.append(var.name.as_str());
    if var.is_fun {
        out.append("()");
        proof {
            reveal_strlit("()");
        }
    }
    assert(out@ =~= spec_format_variable(*var));
    out
}

/// Appends `line` after `out`, with a line break between where `out` has
/// lines already.
fn push_line(out: &mut String, first: bool, line: &str)
    ensures
        final(out)@ == if first {
            old(out)@ + line@
        } else {
            old(out)@ + seq!['\n'] + line@
        },
{
    if !first {
        push_char(out, '\n');
    }
    out.append(line);
}

pub fn variables_to_hover(vars: &[LocalVariable], range: Range) -> (r: Hover)
    ensures
        r.range == range,
        r.value@ == lines_text(vars@.map_values(|v: LocalVariable| spec_format_variable(v))),
{
    let ghost all = vars@.map_values(|v: LocalVariable| spec_format_variable(v));
    let mut out = String::new();
    let mut k: usize = 0;
    assert(all.take(0) =~= Seq::<Seq<char>>::empty());
    while k < vars.len()
        invariant
            k <= vars@.len(),
            all == vars@.map_values(|v: LocalVariable| spec_format_variable(v)),
            out@ == lines_text(all.take(k as int)),
        decreases vars.len() - k,
    {
        let t = format_variable_hoveer(&vars[k]);
        push_line(&mut out, k == 0, t.as_str());
        proof {
            assert(all.take(k + 1).drop_last() =~= all.take(k as int));
            assert(all.take(k + 1).last() == t@);
        }
        k += 1;
    }
    assert(all.take(k as int) =~= all);
    Hover { value: out, range }
}

pub fn field_to_hover(f: &Field, range: Range) -> (r: Hover)
    ensures
        r.range == range,
        r.value@ == spec_format_field(*f),
{
    Hover { value: format_field(f), range }
}

fn methods_lines(methods: &Vec<Method>) -> (r: String)
    ensures
        r@ == lines_text(methods_text(methods@)),
{
    let ghost all = methods_text(methods@);
    let mut out = String::new();
    let mut k: usize = 0;
    assert(all.take(0) =~= Seq::<Seq<char>>::empty());
    while k < methods.len()
        invariant
            k <= methods@.len(),
            all == methods_text(methods@),
            out@ == lines_text(all.take(k as int)),
        decreases methods.len() - k,
    {
        let t = format_method(&methods[k]);
        push_line(&mut out, k == 0, t.as_str());
        proof {
            assert(all.take(k + 1).drop_last() =~= all.take(k as int));
            assert(all.take(k + 1).last() == t@);
        }
        k += 1;
    }
    assert(all.take(k as int) =~= all);
    out
}

pub fn methods_to_hover(methods: &Vec<Method>, range: Range) -> (r: Hover)
    ensures
        r.range == range,
        r.value@ == lines_text(methods_text(methods@)),
{
    Hover { value: methods_lines(methods), range }
}

pub fn class_to_hover(class: &Class, range: Range) -> (r: Hover)
    ensures
        r.range == range,
        r.value@ == class_text(*class),
{
    let methods = methods_lines(&class.methods);
    let mut value = "# ".to_string();
    value.append(class.name.as_str());
    value.append("\n```java\n");
    value.append(methods.as_str());
    value.append("\n```");
    proof {
        reveal_strlit("# ");
        reveal_strlit("\n```java\n");
        reveal_strlit("\n```");
    }
    Hover { value, range }
}

/// `type name` of a field's value.
pub open spec fn field_text(f: FieldView) -> Seq<char> {
    display(f.jtype) + seq![' '] + f.name
}

pub open spec fn param_view_text(p: ParamView) -> Seq<char> {
    match p.name {
        None => display(p.jtype),
        Some(n) => display(p.jtype) + seq![' '] + n,
    }
}

pub open spec fn params_view_text(ps: Seq<ParamView>) -> Seq<char>
    decreases ps.len(),
{
    if ps.len() == 0 {
        seq![]
    } else if ps.len() == 1 {
        param_view_text(ps[0])
    } else {
        params_view_text(ps.drop_last()) + ", "@ + param_view_text(ps.last())
    }
}

pub open spec fn types_view_text(ts: Seq<JTypeView>) -> Seq<char>
    decreases ts.len(),
{
    if ts.len() == 0 {
        seq![]
    } else if ts.len() == 1 {
        display(ts[0])
    } else {
        types_view_text(ts.drop_last()) + ", "@ + display(ts.last())
    }
}

/// `ret name(params)`, with ` throws a, b` after it when it throws, of a
/// method's value.
pub open spec fn method_text(m: MethodView) -> Seq<char> {
    let head = display(m.ret) + seq![' '] + m.name + seq!['('] + params_view_text(m.parameters) + seq![')'];
    if m.throws.len() == 0 {
        head
    } else {
        head + " throws "@ + types_view_text(m.throws)
    }
}

/// A class's name as a heading, then its methods in a Java code block, of
/// a class's value.
pub open spec fn class_view_text(c: ClassView) -> Seq<char> {
    "# "@ + c.name + "\n```java\n"@ + lines_text(c.methods.map_values(|m: MethodView| method_text(m))) + "\n```"@
}

proof fn lemma_params_text(ps: Seq<Parameter>)
    ensures
        params_text(ps) == params_view_text(params_view(ps)),
    decreases ps.len(),
{
    if ps.len() > 0 {
        lemma_params_text(ps.drop_last());
        assert(params_view(ps).drop_last() =~= params_view(ps.drop_last()));
    }
}

proof fn lemma_types_text(ts: Seq<JType>)
    ensures
        types_text(ts) == types_view_text(jtypes_view(ts)),
    decreases ts.len(),
{
    lemma_jtypes_view_len(ts);
    if ts.len() > 0 {
        lemma_types_text(ts.drop_last());
        lemma_jtypes_view_len(ts.drop_last());
        assert(jtypes_view(ts).drop_last() =~= jtypes_view(ts.drop_last()));
        if ts.len() == 1 {
            assert(jtypes_view(ts)[0] == ts[0]@);
        }
    }
}

/// A method is written the same from its value.
pub proof fn lemma_method_text(m: Method)
    ensures
        spec_format_method(m) == method_text(m@),
{
    lemma_params_text(m.parameters@);
    lemma_types_text(m.throws@);
    lemma_jtypes_view_len(m.throws@);
}

proof fn lemma_class_text(c: Class)
    ensures
        class_text(c) == class_view_text(c@),
{
    assert forall|i: int| 0 <= i < c.methods@.len() implies #[trigger] methods_text(c.methods@)[i] == c@.methods.map_values(
        |m: MethodView| method_text(m),
    )[i] by {
        lemma_method_text(c.methods@[i]);
    }
    assert(methods_text(c.methods@) =~= c@.methods.map_values(|m: MethodView| method_text(m)));
}

/// Why no hover was found.
#[derive(Debug)]
pub enum HoverError {
    Tyres(TyresError),
    LocalVariableNotFound { name: String },
    ValidatedItemDoesNotExists,
    ParseError(ParseJavaError),
    Unimlemented,
    ArgumentNotFound,
}

pub enum HoverErrView {
    Tyres(TyresErrorView),
    LocalVariableNotFound(Seq<char>),
    ValidatedItemDoesNotExists,
    ParseError(JavaErr),
    Unimlemented,
    ArgumentNotFound,
}

impl View for HoverError {
    type V = HoverErrView;

    open spec fn view(&self) -> HoverErrView {
        match self {
            HoverError::Tyres(e) => HoverErrView::Tyres(e@),
            HoverError::LocalVariableNotFound { name } => HoverErrView::LocalVariableNotFound(name@),
            HoverError::ValidatedItemDoesNotExists => HoverErrView::ValidatedItemDoesNotExists,
            HoverError::ParseError(e) => HoverErrView::ParseError(e@),
            HoverError::Unimlemented => HoverErrView::Unimlemented,
            HoverError::ArgumentNotFound => HoverErrView::ArgumentNotFound,
        }
    }
}

pub struct HoverView {
    pub value: Seq<char>,
    pub range: Range,
}

pub open spec fn hover_view(r: Result<Hover, HoverError>) -> Result<HoverView, HoverErrView> {
    match r {
        Ok(h) => Ok(HoverView { value: h.value@, range: h.range }),
        Err(e) => Err(e@),
    }
}

/// Texts one after another with `sep` between them.
pub open spec fn joined(ts: Seq<Seq<char>>, sep: Seq<char>) -> Seq<char>
    decreases ts.len(),
{
    if ts.len() == 0 {
        seq![]
    } else if ts.len() == 1 {
        ts[0]
    } else {
        joined(ts.drop_last(), sep) + sep + ts.last()
    }
}

/// The texts of the methods named `name`, in order.
pub open spec fn method_lines(ms: Seq<MethodView>, name: Seq<char>) -> Seq<Seq<char>>
    decreases ms.len(),
{
    if ms.len() == 0 {
        seq![]
    } else {
        method_lines(ms.drop_last(), name) + if ms.last().name == name {
            seq![method_text(ms.last())]
        } else {
            seq![]
        }
    }
}

/// The texts of the fields named `name`, in order.
pub open spec fn field_lines(fs: Seq<FieldView>, name: Seq<char>) -> Seq<Seq<char>>
    decreases fs.len(),
{
    if fs.len() == 0 {
        seq![]
    } else {
        field_lines(fs.drop_last(), name) + if fs.last().name == name {
            seq![field_text(fs.last())]
        } else {
            seq![]
        }
    }
}

/// `type name` of each variable named `name` that is no method, in order.
pub open spec fn var_lines(vs: Seq<VarView>, name: Seq<char>) -> Seq<Seq<char>>
    decreases vs.len(),
{
    if vs.len() == 0 {
        seq![]
    } else {
        var_lines(vs.drop_last(), name) + if vs.last().name == name && !vs.last().is_fun {
            seq![display(vs.last().jtype) + seq![' '] + vs.last().name]
        } else {
            seq![]
        }
    }
}

/// `type name`, with `()` after a method's name, of a variable's value.
pub open spec fn var_text(v: VarView) -> Seq<char> {
    display(v.jtype) + seq![' '] + v.name + if v.is_fun {
        "()"@
    } else {
        seq![]
    }
}

/// The class that the file `b` declares, read with no source.
pub open spec fn local_class(b: Seq<u8>) -> Result<ClassView, JavaErr> {
    match spec_java_syntax(b) {
        None => Err(JavaErr::Treesitter(TreesitterError::NoNodeFound)),
        Some(ns) => class_at(ns, b, SourceView::Empty),
    }
}

/// The hover for the link at `point` of `chain`, in the file `b`: the link
/// at the point (see `link_at`) and the class that the chain resolves to up
/// to it (see `to_point_result`) give the methods of that name, the field of
/// that name, the variable of that name, the class, or, for a name that is
/// a variable, its variables, fields and methods of that name in the file's
/// own class; an argument list gives the hover of the argument that the
/// cursor stands in.
pub open spec fn hover_of(
    b: Seq<u8>,
    m: Map<Seq<char>, ClassView>,
    imports: Seq<ImportView>,
    vars: Seq<VarView>,
    class: ClassView,
    chain: Seq<ItemView>,
    point: Point,
) -> Result<HoverView, HoverErrView>
    decreases chain,
{
    let i = link_at(chain, point);
    if chain.len() == 0 || i < 0 || i >= chain.len() {
        Err(HoverErrView::ValidatedItemDoesNotExists)
    } else {
        match to_point_result(m, imports, vars, class, chain.subrange(0, i + 1), point) {
            Err(e) => Err(HoverErrView::Tyres(e)),
            Ok(st) => match chain[i] {
                ItemView::MethodCall { name, range } => Ok(
                    HoverView { value: joined(method_lines(st.class.methods, name), seq!['\n']), range },
                ),
                ItemView::FieldAccess { name, range } => match first_field(st.class.fields, name) {
                    Some(f) => Ok(HoverView { value: field_text(f), range }),
                    None => Err(HoverErrView::LocalVariableNotFound(name)),
                },
                ItemView::Variable { name, range } => match first_var(vars, name) {
                    Some(v) => Ok(HoverView { value: var_text(v), range }),
                    None => Err(HoverErrView::LocalVariableNotFound(name)),
                },
                ItemView::Class { range, .. } => Ok(HoverView { value: class_view_text(st.class), range }),
                ItemView::ClassOrVariable { name, range } => if first_var(vars, name) is None {
                    Ok(HoverView { value: class_view_text(st.class), range })
                } else {
                    match local_class(b) {
                        Err(e) => Err(HoverErrView::ParseError(e)),
                        Ok(lc) => Ok(
                            HoverView {
                                value: joined(var_lines(vars, name), "\n\n"@) + "\n\n"@ + joined(
                                    field_lines(lc.fields, name),
                                    "\n\n"@,
                                ) + "\n\n"@ + joined(method_lines(lc.methods, name), "\n\n"@),
                                range,
                            },
                        ),
                    }
                },
                ItemView::ArgumentList { active_param, filled_params, .. } => if active_param
                    < filled_params.len() {
                    hover_of(b, m, imports, vars, st.class, filled_params[active_param as int], point)
                } else {
                    Err(HoverErrView::ArgumentNotFound)
                },
            },
        }
    }
}

proof fn lemma_joined_push(ts: Seq<Seq<char>>, x: Seq<char>, sep: Seq<char>)
    ensures
        joined(ts.push(x), sep) == if ts.len() == 0 {
            x
        } else {
            joined(ts, sep) + sep + x
        },
{
    assert(ts.push(x).drop_last() =~= ts);
}

fn push_joined(out: &mut String, emitted: usize, sep: &str, x: &str)
    ensures
        final(out)@ == if emitted == 0 {
            old(out)@ + x@
        } else {
            old(out)@ + sep@ + x@
        },
{
    if emitted > 0 {
        out.append(sep);
    }
    out.append(x);
}

fn methods_joined(ms: &Vec<Method>, name: &str, sep: &str) -> (r: String)
    ensures
        r@ == joined(method_lines(methods_view(ms@), name@), sep@),
{
    let ghost all = methods_view(ms@);
    let mut out = String::new();
    let mut emitted: usize = 0;
    let mut k: usize = 0;
    assert(all.take(0) =~= Seq::<MethodView>::empty());
    while k < ms.len()
        invariant
            k <= ms@.len(),
            all == methods_view(ms@),
            emitted == method_lines(all.take(k as int), name@).len(),
            emitted <= k,
            out@ == joined(method_lines(all.take(k as int), name@), sep@),
        decreases ms.len() - k,
    {
        let ghost pre = method_lines(all.take(k as int), name@);
        assert(all.take(k + 1).drop_last() =~= all.take(k as int));
        assert(all.take(k + 1).last() == ms@[k as int]@);
        if crate::text::str_eq(ms[k].name.as_str(), name) {
            let t = format_method(&ms[k]);
            proof {
                lemma_method_text(ms@[k as int]);
                lemma_joined_push(pre, t@, sep@);
                assert(pre + seq![t@] =~= pre.push(t@));
            }
            push_joined(&mut out, emitted, sep, t.as_str());
            emitted += 1;
        } else {
            assert(pre + Seq::<Seq<char>>::empty() =~= pre);
        }
        k += 1;
    }
    assert(all.take(k as int) =~= all);
    out
}

fn fields_joined(fs: &Vec<Field>, name: &str, sep: &str) -> (r: String)
    ensures
        r@ == joined(field_lines(fields_view(fs@), name@), sep@),
{
    let ghost all = fields_view(fs@);
    let mut out = String::new();
    let mut emitted: usize = 0;
    let mut k: usize = 0;
    assert(all.take(0) =~= Seq::<FieldView>::empty());
    while k < fs.len()
        invariant
            k <= fs@.len(),
            all == fields_view(fs@),
            emitted == field_lines(all.take(k as int), name@).len(),
            emitted <= k,
            out@ == joined(field_lines(all.take(k as int), name@), sep@),
        decreases fs.len() - k,
    {
        let ghost pre = field_lines(all.take(k as int), name@);
        assert(all.take(k + 1).drop_last() =~= all.take(k as int));
        assert(all.take(k + 1).last() == fs@[k as int]@);
        if crate::text::str_eq(fs[k].name.as_str(), name) {
            let t = format_field(&fs[k]);
            proof {
                lemma_joined_push(pre, t@, sep@);
                assert(pre + seq![t@] =~= pre.push(t@));
            }
            push_joined(&mut out, emitted, sep, t.as_str());
            emitted += 1;
        } else {
            assert(pre + Seq::<Seq<char>>::empty() =~= pre);
        }
        k += 1;
    }
    assert(all.take(k as int) =~= all);
    out
}

fn vars_joined(vs: &[LocalVariable], name: &str, sep: &str) -> (r: String)
    ensures
        r@ == joined(var_lines(vars_view(vs@), name@), sep@),
{
    let ghost all = vars_view(vs@);
    let mut out = String::new();
    let mut emitted: usize = 0;
    let mut k: usize = 0;
    assert(all.take(0) =~= Seq::<VarView>::empty());
    while k < vs.len()
        invariant
            k <= vs@.len(),
            all == vars_view(vs@),
            emitted == var_lines(all.take(k as int), name@).len(),
            emitted <= k,
            out@ == joined(var_lines(all.take(k as int), name@), sep@),
        decreases vs.len() - k,
    {
        let ghost pre = var_lines(all.take(k as int), name@);
        assert(all.take(k + 1).drop_last() =~= all.take(k as int));
        assert(all.take(k + 1).last() == vs@[k as int]@);
        if crate::text::str_eq(vs[k].name.as_str(), name) && !vs[k].is_fun {
            let mut t = vs[k].jtype.display_string();
            push_char(&mut t, ' ');
            t.append(vs[k].name.as_str());
            assert(t@ =~= display(all[k as int].jtype) + seq![' '] + all[k as int].name);
            proof {
                lemma_joined_push(pre, t@, sep@);
                assert(pre + seq![t@] =~= pre.push(t@));
            }
            push_joined(&mut out, emitted, sep, t.as_str());
            emitted += 1;
        } else {
            assert(pre + Seq::<Seq<char>>::empty() =~= pre);
        }
        k += 1;
    }
    assert(all.take(k as int) =~= all);
    out
}

/// The hover for the link at `point` of `call_chain` in the file `bytes`,
/// whose variables are `lo_va`, imports `imports` and class `class` (see
/// `hover_of`).
#[verifier::rlimit(60)]
pub fn call_chain_hover(
    bytes: &[u8],
    call_chain: &Vec<CallItem>,
    point: &Point,
    lo_va: &[LocalVariable],
    imports: &[ImportUnit],
    class: &Class,
    class_map: &DashMap<String, Class>,
) -> (r: Result<Hover, HoverError>)
    requires
        parents_end(class_map_contents(*class_map)),
    ensures
        hover_view(r) == hover_of(
            bytes@,
            class_map_contents(*class_map),
            imports_view(imports@),
            vars_view(lo_va@),
            class@,
            chain_view(call_chain@),
            *point,
        ),
    decreases call_chain@,
{
    let ghost cv = chain_view(call_chain@);
    proof {
        lemma_chain_view_len(call_chain@);
    }
    if call_chain.len() == 0 {
        return Err(HoverError::ValidatedItemDoesNotExists);
    }
    let (item, relevant) = match validate(call_chain, point) {
        Some(x) => x,
        None => return Err(HoverError::ValidatedItemDoesNotExists),
    };
    if item >= call_chain.len() {
        return Err(HoverError::ValidatedItemDoesNotExists);
    }
    let state = match resolve_call_chain_to_point(relevant, lo_va, imports, class, class_map, point) {
        Ok(s) => s,
        Err(e) => return Err(HoverError::Tyres(e)),
    };
    proof {
        lemma_chain_view_index(call_chain@, item as int);
    }
    let el = &call_chain[item];
    match el {
        CallItem::MethodCall { name, range } => {
            let value = methods_joined(&state.class.methods, name.as_str(), "\n");
            proof {
                reveal_strlit("\n");
                assert("\n"@ =~= seq!['\n']);
            }
            Ok(Hover { value, range: *range })
        },
        CallItem::FieldAccess { name, range } => {
            match find_field(&state.class.fields, name.as_str()) {
                Some(f) => Ok(Hover { value: format_field(f), range: *range }),
                None => Err(HoverError::LocalVariableNotFound { name: name.clone() }),
            }
        },
        CallItem::Variable { name, range } => {
            match find_var(lo_va, name.as_str()) {
                Some(v) => Ok(Hover { value: format_variable_hoveer(v), range: *range }),
                None => Err(HoverError::LocalVariableNotFound { name: name.clone() }),
            }
        },
        CallItem::Class { name: _, range } => {
            proof {
                lemma_class_text(state.class);
            }
            Ok(class_to_hover(&state.class, *range))
        },
        CallItem::ClassOrVariable { name, range } => {
            if find_var(lo_va, name.as_str()).is_none() {
                proof {
                    lemma_class_text(state.class);
                }
                return Ok(class_to_hover(&state.class, *range));
            }
            match load_java(bytes, SourceDestination::Empty) {
                Err(e) => Err(HoverError::ParseError(e)),
                Ok(local) => {
                    let vars = vars_joined(lo_va, name.as_str(), "\n\n");
                    let fields = fields_joined(&local.fields, name.as_str(), "\n\n");
                    let methods = methods_joined(&local.methods, name.as_str(), "\n\n");
                    let mut value = vars;
                    value.append("\n\n");
                    value.append(fields.as_str());
                    value.append("\n\n");
                    value.append(methods.as_str());
                    Ok(Hover { value, range: *range })
                },
            }
        },
        CallItem::ArgumentList { prev: _, range: _, active_param, filled_params } => {
            proof {
                lemma_params_view_len(filled_params@);
            }
            if *active_param < filled_params.len() {
                let current_param = &filled_params[*active_param];
                proof {
                    lemma_params_view_index(filled_params@, *active_param as int);
                    assert(decreases_to!(call_chain@ => call_chain@[item as int]));
                    assert(decreases_to!(*el => filled_params));
                    assert(decreases_to!(filled_params => filled_params@));
                    assert(decreases_to!(filled_params@ => filled_params@[*active_param as int]));
                    assert(decreases_to!(*current_param => current_param@));
                }
                return call_chain_hover(bytes, current_param, point, lo_va, imports, &state.class, class_map);
            }
            Err(HoverError::ArgumentNotFound)
        },
    }
}

/// `call_chain_hover` where every chain of parents of the classes of
/// `class_map` ends within `depth` steps, as `parents_end_within` tests
/// first; `None` where one does not.
pub fn call_chain_hover_within(
    bytes: &[u8],
    call_chain: &Vec<CallItem>,
    point: &Point,
    lo_va: &[LocalVariable],
    imports: &[ImportUnit],
    class: &Class,
    class_map: &DashMap<String, Class>,
    depth: usize,
) -> (r: Option<Result<Hover, HoverError>>)
    ensures
        r is None <==> !all_end_within(class_map_contents(*class_map), depth as nat),
        r matches Some(h) ==> hover_view(h) == hover_of(
            bytes@,
            class_map_contents(*class_map),
            imports_view(imports@),
            vars_view(lo_va@),
            class@,
            chain_view(call_chain@),
            *point,
        ),
{
    if parents_end_within(class_map, depth) {
        Some(call_chain_hover(bytes, call_chain, point, lo_va, imports, class, class_map))
    } else {
        None
    }
}

} // verus!
