//! Where a go-to-definition leads: which source file and which kind of
//! declaration a call chain names at the cursor, the declarations found in
//! that source, and finding the source file of a class from the source of
//! one of its inner classes.
use vstd::prelude::*;

use crate::call_chain_ranges::{
    chain_view, lemma_chain_view_index, lemma_chain_view_len, lemma_params_view_index, lemma_params_view_len,
    link_at, validate, CallItem, ItemView,
};
use crate::dto::{imports_view, Class, ClassView, FieldView, ImportUnit, ImportView, MethodView};
use crate::java::syntax::spec_java_syntax;
use crate::position::{
    all_items, get_class_position, get_field_positions, get_method_positions, symbols_view, ItemQuery, PosionError,
    PositionSymbol,
};
use crate::treesitter::{Point, Range, TreesitterError};
use crate::tyres::parent::class_map_contents;
use crate::tyres::{
    all_end_within, find_var, first_var, parents_end, parents_end_within, resolve_call_chain_to_point, to_point_result,
    TyresError, TyresErrorView,
};
use crate::variable::{vars_view, LocalVariable, VarView};
use dashmap::DashMap;

use crate::text::{
    chars_of, find_exec, find_from, push_char, rsplit_once,
    rsplit_once_exec, split_once, split_once_exec, string_of,
};

verus! {

/// `dir/Outer$Inner.ext` becomes `dir/Outer.ext`; any other source stays
/// as it is.
pub open spec fn spec_path_without_subclass(source: Seq<char>) -> Seq<char> {
    match rsplit_once(source, seq!['/']) {
        Some((path, file_name)) => if find_from(file_name, seq!['$'], 0) is Some {
            match split_once(file_name, seq!['.']) {
                Some((name, extension)) => match split_once(name, seq!['$']) {
                    Some((outer, _)) => path + seq!['/'] + outer + seq!['.'] + extension,
                    None => source,
                },
                None => source,
            }
        } else {
            source
        },
        None => source,
    }
}

pub fn path_without_subclass(source: &str) -> (r: String)
    ensures
        r@ == spec_path_without_subclass(source@),
{
    let s = chars_of(source);
    let mut slash: Vec<char> = Vec::new();
    slash.push('/');
    let mut dollar: Vec<char> = Vec::new();
    dollar.push('$');
    let mut dot: Vec<char> = Vec::new();
    dot.push('.');
    assert(slash@ =~= seq!['/']);
    assert(dollar@ =~= seq!['$']);
    assert(dot@ =~= seq!['.']);
    if let Some((path, file_name)) = rsplit_once_exec(&s, &slash) {
        if find_exec(&file_name, &dollar).is_some() {
            if let Some((name, extension)) = split_once_exec(&file_name, &dot) {
                if let Some((outer, _)) = split_once_exec(&name, &dollar) {
                    let mut out = string_of(&path, 0, path.len());
                    push_char(&mut out, '/');
                    let o = string_of(&outer, 0, outer.len());
                    out.append(o.as_str());
                    push_char(&mut out, '.');
                    let e = string_of(&extension, 0, extension.len());
                    out.append(e.as_str());
                    assert(path@.subrange(0, path@.len() as int) =~= path@);
                    assert(outer@.subrange(0, outer@.len() as int) =~= outer@);
                    assert(extension@.subrange(0, extension@.len() as int) =~= extension@);
                    assert(out@ =~= path@ + seq!['/'] + outer@ + seq!['.'] + extension@);
                    return out;
                }
            }
        }
    }
    let r = string_of(&s, 0, s.len());
    assert(s@.subrange(0, s@.len() as int) =~= s@);
    r
}

/// Why no definition was found.
#[derive(Debug)]
pub enum DefinitionError {
    Tyres(TyresError),
    LocalVariableNotFound { name: String },
    ValidatedItemDoesNotExists,
    ArgumentNotFound,
}

pub enum DefErrView {
    Tyres(TyresErrorView),
    LocalVariableNotFound(Seq<char>),
    ValidatedItemDoesNotExists,
    ArgumentNotFound,
}

impl View for DefinitionError {
    type V = DefErrView;

    open spec fn view(&self) -> DefErrView {
        match self {
            DefinitionError::Tyres(e) => DefErrView::Tyres(e@),
            DefinitionError::LocalVariableNotFound { name } => DefErrView::LocalVariableNotFound(name@),
            DefinitionError::ValidatedItemDoesNotExists => DefErrView::ValidatedItemDoesNotExists,
            DefinitionError::ArgumentNotFound => DefErrView::ArgumentNotFound,
        }
    }
}

/// Where a definition lies: the type, method or field of a name in a
/// source file, the range of a local variable, or the local variables of
/// a name (with their ranges) in the open document.
#[derive(Debug, PartialEq)]
pub enum DefinitionTarget {
    Class { source: String, name: String },
    Method { source: String, name: String },
    Field { source: String, name: String },
    Local { range: Range },
    Locals { vars: Vec<(Range, String)> },
}

pub enum TargetView {
    Class { source: Seq<char>, name: Seq<char> },
    Method { source: Seq<char>, name: Seq<char> },
    Field { source: Seq<char>, name: Seq<char> },
    Local { range: Range },
    Locals { vars: Seq<(Range, Seq<char>)> },
}

impl View for DefinitionTarget {
    type V = TargetView;

    open spec fn view(&self) -> TargetView {
        match self {
            DefinitionTarget::Class { source, name } => TargetView::Class { source: source@, name: name@ },
            DefinitionTarget::Method { source, name } => TargetView::Method { source: source@, name: name@ },
            DefinitionTarget::Field { source, name } => TargetView::Field { source: source@, name: name@ },
            DefinitionTarget::Local { range } => TargetView::Local { range: *range },
            DefinitionTarget::Locals { vars } => TargetView::Locals {
                vars: vars@.map_values(|v: (Range, String)| (v.0, v.1@)),
            },
        }
    }
}

pub open spec fn target_result(r: Result<DefinitionTarget, DefinitionError>) -> Result<TargetView, DefErrView> {
    match r {
        Ok(t) => Ok(t@),
        Err(e) => Err(e@),
    }
}

/// The source of the first method named `name` that has one.
pub open spec fn method_source(ms: Seq<MethodView>, name: Seq<char>) -> Option<Seq<char>>
    decreases ms.len(),
{
    if ms.len() == 0 {
        None
    } else if ms[0].name == name && ms[0].source is Some {
        ms[0].source
    } else {
        method_source(ms.drop_first(), name)
    }
}

/// The source of the first field named `name` that has one.
pub open spec fn field_source(fs: Seq<FieldView>, name: Seq<char>) -> Option<Seq<char>>
    decreases fs.len(),
{
    if fs.len() == 0 {
        None
    } else if fs[0].name == name && fs[0].source is Some {
        fs[0].source
    } else {
        field_source(fs.drop_first(), name)
    }
}

/// The ranges and names of the variables named `name`, in order.
pub open spec fn named_locals(vs: Seq<VarView>, name: Seq<char>) -> Seq<(Range, Seq<char>)>
    decreases vs.len(),
{
    if vs.len() == 0 {
        seq![]
    } else {
        named_locals(vs.drop_last(), name) + if vs.last().name == name {
            seq![(vs.last().range, vs.last().name)]
        } else {
            seq![]
        }
    }
}

/// Where the link at `point` of `chain` is defined: the class that the
/// chain resolves to up to it (see `to_point_result`) gives, for a class
/// name, that class's source; for a method or a field, the source of the
/// first one of that name that has one, else the class's source; a variable
/// gives its range, a name its variables; an argument list the definition in
/// the argument that the cursor stands in.
pub open spec fn definition_of(
    m: Map<Seq<char>, ClassView>,
    imports: Seq<ImportView>,
    vars: Seq<VarView>,
    class: ClassView,
    chain: Seq<ItemView>,
    point: Point,
) -> Result<TargetView, DefErrView>
    decreases chain,
{
    let i = link_at(chain, point);
    if chain.len() == 0 || i < 0 || i >= chain.len() {
        Err(DefErrView::ValidatedItemDoesNotExists)
    } else {
        match to_point_result(m, imports, vars, class, chain.subrange(0, i + 1), point) {
            Err(e) => Err(DefErrView::Tyres(e)),
            Ok(st) => match chain[i] {
                ItemView::Class { name, .. } => Ok(TargetView::Class { source: st.class.source, name }),
                ItemView::MethodCall { name, .. } => Ok(
                    TargetView::Method {
                        source: match method_source(st.class.methods, name) {
                            Some(s) => s,
                            None => st.class.source,
                        },
                        name,
                    },
                ),
                ItemView::FieldAccess { name, .. } => Ok(
                    TargetView::Field {
                        source: match field_source(st.class.fields, name) {
                            Some(s) => s,
                            None => st.class.source,
                        },
                        name,
                    },
                ),
                ItemView::Variable { name, .. } => match first_var(vars, name) {
                    Some(v) => Ok(TargetView::Local { range: v.range }),
                    None => Err(DefErrView::LocalVariableNotFound(name)),
                },
                ItemView::ClassOrVariable { name, .. } => Ok(TargetView::Locals { vars: named_locals(vars, name) }),
                ItemView::ArgumentList { active_param, filled_params, .. } => if active_param
                    < filled_params.len() {
                    definition_of(m, imports, vars, st.class, filled_params[active_param as int], point)
                } else {
                    Err(DefErrView::ArgumentNotFound)
                },
            },
        }
    }
}

fn find_method_source(ms: &Vec<crate::dto::Method>, name: &str) -> (r: Option<String>)
    ensures
        crate::dto::opt_view(r) == method_source(crate::dto::methods_view(ms@), name@),
{
    let ghost all = crate::dto::methods_view(ms@);
    let mut k: usize = 0;
    assert(all.subrange(0, all.len() as int) =~= all);
    while k < ms.len()
        invariant
            k <= ms@.len(),
            all == crate::dto::methods_view(ms@),
            method_source(all, name@) == method_source(all.subrange(k as int, all.len() as int), name@),
        decreases ms.len() - k,
    {
        let ghost rest = all.subrange(k as int, all.len() as int);
        assert(rest.drop_first() =~= all.subrange(k + 1, all.len() as int));
        if crate::text::str_eq(ms[k].name.as_str(), name) && ms[k].source.is_some() {
            return crate::dto::copy_opt_string(&ms[k].source);
        }
        k += 1;
    }
    None
}

fn find_field_source(fs: &Vec<crate::dto::Field>, name: &str) -> (r: Option<String>)
    ensures
        crate::dto::opt_view(r) == field_source(crate::dto::fields_view(fs@), name@),
{
    let ghost all = crate::dto::fields_view(fs@);
    let mut k: usize = 0;
    assert(all.subrange(0, all.len() as int) =~= all);
    while k < fs.len()
        invariant
            k <= fs@.len(),
            all == crate::dto::fields_view(fs@),
            field_source(all, name@) == field_source(all.subrange(k as int, all.len() as int), name@),
        decreases fs.len() - k,
    {
        let ghost rest = all.subrange(k as int, all.len() as int);
        assert(rest.drop_first() =~= all.subrange(k + 1, all.len() as int));
        if crate::text::str_eq(fs[k].name.as_str(), name) && fs[k].source.is_some() {
            return crate::dto::copy_opt_string(&fs[k].source);
        }
        k += 1;
    }
    None
}

fn locals_named(vs: &[LocalVariable], name: &str) -> (r: Vec<(Range, String)>)
    ensures
        r@.map_values(|v: (Range, String)| (v.0, v.1@)) == named_locals(vars_view(vs@), name@),
{
    let ghost all = vars_view(vs@);
    let mut out: Vec<(Range, String)> = Vec::new();
    let mut k: usize = 0;
    assert(all.take(0) =~= Seq::<VarView>::empty());
    assert(out@.map_values(|v: (Range, String)| (v.0, v.1@)) =~= Seq::<(Range, Seq<char>)>::empty());
    while k < vs.len()
        invariant
            k <= vs@.len(),
            all == vars_view(vs@),
            out@.map_values(|v: (Range, String)| (v.0, v.1@)) == named_locals(all.take(k as int), name@),
        decreases vs.len() - k,
    {
        let ghost before = out@;
        assert(all.take(k + 1).drop_last() =~= all.take(k as int));
        assert(all.take(k + 1).last() == vs@[k as int]@);
        if crate::text::str_eq(vs[k].name.as_str(), name) {
            out.push((vs[k].range, vs[k].name.clone()));
            assert(out@.map_values(|v: (Range, String)| (v.0, v.1@)) =~= before.map_values(
                |v: (Range, String)| (v.0, v.1@),
            ).push((vs@[k as int].range, vs@[k as int].name@)));
        } else {
            assert(named_locals(all.take(k as int), name@) + Seq::<(Range, Seq<char>)>::empty() =~= named_locals(
                all.take(k as int),
                name@,
            ));
        }
        k += 1;
    }
    assert(all.take(k as int) =~= all);
    out
}

/// Where the link at `point` of `call_chain` is defined, in a file whose
/// variables are `lo_va`, imports `imports` and class `class` (see
/// `definition_of`).
pub fn definition_target(
    call_chain: &Vec<CallItem>,
    point: &Point,
    lo_va: &[LocalVariable],
    imports: &[ImportUnit],
    class: &Class,
    class_map: &DashMap<String, Class>,
) -> (r: Result<DefinitionTarget, DefinitionError>)
    requires
        parents_end(class_map_contents(*class_map)),
    ensures
        target_result(r) == definition_of(
            class_map_contents(*class_map),
            imports_view(imports@),
            vars_view(lo_va@),
            class@,
            chain_view(call_chain@),
            *point,
        ),
    decreases call_chain@,
{
    proof {
        lemma_chain_view_len(call_chain@);
    }
    if call_chain.len() == 0 {
        return Err(DefinitionError::ValidatedItemDoesNotExists);
    }
    let (item, relevant) = match validate(call_chain, point) {
        Some(x) => x,
        None => return Err(DefinitionError::ValidatedItemDoesNotExists),
    };
    if item >= call_chain.len() {
        return Err(DefinitionError::ValidatedItemDoesNotExists);
    }
    let state = match resolve_call_chain_to_point(relevant, lo_va, imports, class, class_map, point) {
        Ok(s) => s,
        Err(e) => return Err(DefinitionError::Tyres(e)),
    };
    proof {
        lemma_chain_view_index(call_chain@, item as int);
    }
    let el = &call_chain[item];
    match el {
        CallItem::Class { name, range: _ } => Ok(
            DefinitionTarget::Class { source: state.class.source.clone(), name: name.clone() },
        ),
        CallItem::MethodCall { name, range: _ } => {
            let source = match find_method_source(&state.class.methods, name.as_str()) {
                Some(s) => s,
                None => state.class.source.clone(),
            };
            Ok(DefinitionTarget::Method { source, name: name.clone() })
        },
        CallItem::FieldAccess { name, range: _ } => {
            let source = match find_field_source(&state.class.fields, name.as_str()) {
                Some(s) => s,
                None => state.class.source.clone(),
            };
            Ok(DefinitionTarget::Field { source, name: name.clone() })
        },
        CallItem::Variable { name, range: _ } => match find_var(lo_va, name.as_str()) {
            Some(v) => Ok(DefinitionTarget::Local { range: v.range }),
            None => Err(DefinitionError::LocalVariableNotFound { name: name.clone() }),
        },
        CallItem::ClassOrVariable { name, range: _ } => Ok(
            DefinitionTarget::Locals { vars: locals_named(lo_va, name.as_str()) },
        ),
        CallItem::ArgumentList { prev: _, range: _, active_param, filled_params } => {
            proof {
                lemma_params_view_len(filled_params@);
            }
            if *active_param < filled_params.len() {
                let current_param = &filled_params[*active_param];
                proof {
                    lemma_params_view_index(filled_params@, *active_param as int);
                    assert(decreases_to!(call_chain@ => call_chain@[item as int]));
                    assert(decreases_to!(*el => filled_params));
                    assert(decreases_to!(filled_params => filled_params@));
                    assert(decreases_to!(filled_params@ => filled_params@[*active_param as int]));
                    assert(decreases_to!(*current_param => current_param@));
                }
                return definition_target(current_param, point, lo_va, imports, &state.class, class_map);
            }
            Err(DefinitionError::ArgumentNotFound)
        },
    }
}

/// The declarations that a target of a source file names in that source's
/// text `source`: the types, methods or fields of its name (see `all_items`);
/// a target in the open document names nothing in another source.
pub fn definition_ranges(target: &DefinitionTarget, source: &[u8]) -> (r: Result<Vec<PositionSymbol>, PosionError>)
    ensures
        match target@ {
            TargetView::Class { name, .. } => match spec_java_syntax(source@) {
                None => r == Err::<Vec<PositionSymbol>, PosionError>(PosionError::Treesitter(TreesitterError::NoNodeFound)),
                Some(ns) => r matches Ok(v) && symbols_view(v@) == all_items(ns, source@, ItemQuery::Classes, Some(name)),
            },
            TargetView::Method { name, .. } => match spec_java_syntax(source@) {
                None => r == Err::<Vec<PositionSymbol>, PosionError>(PosionError::Treesitter(TreesitterError::NoNodeFound)),
                Some(ns) => r matches Ok(v) && symbols_view(v@) == all_items(ns, source@, ItemQuery::Methods, Some(name)),
            },
            TargetView::Field { name, .. } => match spec_java_syntax(source@) {
                None => r == Err::<Vec<PositionSymbol>, PosionError>(PosionError::Treesitter(TreesitterError::NoNodeFound)),
                Some(ns) => r matches Ok(v) && symbols_view(v@) == all_items(ns, source@, ItemQuery::Fields, Some(name)),
            },
            _ => r matches Ok(v) && v@.len() == 0,
        },
{
    match target {
        DefinitionTarget::Class { source: _, name } => get_class_position(source, name.as_str()),
        DefinitionTarget::Method { source: _, name } => get_method_positions(source, name.as_str()),
        DefinitionTarget::Field { source: _, name } => get_field_positions(source, name.as_str()),
        _ => Ok(Vec::new()),
    }
}

/// `definition_target` where every chain of parents of the classes of
/// `class_map` ends within `depth` steps, as `parents_end_within` tests
/// first; `None` where one does not.
pub fn definition_target_within(
    call_chain: &Vec<CallItem>,
    point: &Point,
    lo_va: &[LocalVariable],
    imports: &[ImportUnit],
    class: &Class,
    class_map: &DashMap<String, Class>,
    depth: usize,
) -> (r: Option<Result<DefinitionTarget, DefinitionError>>)
    ensures
        r is None <==> !all_end_within(class_map_contents(*class_map), depth as nat),
        r matches Some(t) ==> target_result(t) == definition_of(
            class_map_contents(*class_map),
            imports_view(imports@),
            vars_view(lo_va@),
            class@,
            chain_view(call_chain@),
            *point,
        ),
{
    if parents_end_within(class_map, depth) {
        Some(definition_target(call_chain, point, lo_va, imports, class, class_map))
    } else {
        None
    }
}

} // verus!
