//! Type resolution: which class a type name, a Java type or a call chain
//! stands for, seen from a file with its imports, its local variables and
//! its own class, in a map of classes by class path. A class found in the
//! map is returned together with its parents (see `parent`).
//!
//! The resolving functions read the map many times in one call. What they
//! state, and their ending, which rests on no class of the map being its
//! own ancestor, holds while no other thread writes the map during the call.
pub mod parent;

use vstd::prelude::*;

use crate::call_chain_ranges::{
    chain_view, copy_item, range_at, range_of, lemma_chain_view_index, lemma_chain_view_len, lemma_chain_view_push, lemma_params_view_index,
    lemma_params_view_len, CallItem, ItemView,
};
use crate::dto::{
    imports_view, spec_class_name, Access, Class, ClassView, Field, FieldView, ImportUnit, ImportView, JType,
    JTypeView, Method, MethodView, SuperClass, SuperView,
};
use crate::treesitter::{point_lt, Point};
use crate::text::{chars_of, contains_seq, starts_with, starts_with_exec, str_contains, str_eq};
use crate::variable::{vars_view, LocalVariable, VarView};
use dashmap::DashMap;
use parent::{
    class_map_contents, class_map_get, inclued_parent, interfaces_end_list, interfaces_list_end, lookup,
    super_chain_ends, super_classes_end, supers_view_of, with_parents,
};

verus! {

/// Calls `DashMap::contains_key` with `key`: whether the map holds a class
/// under `key`.
#[verifier::external_body]
fn class_map_contains_key(class_map: &DashMap<String, Class>, key: &String) -> (b: bool)
    ensures
        b == class_map_contents(*class_map).dom().contains(key@),
{
    class_map.contains_key(key)
}

/// What an import makes of a type name: a class, or a class imported
/// statically.
#[derive(Debug, PartialEq)]
pub enum ImportResult {
    Class(String),
    StaticClass(String),
}

pub enum ImportResultView {
    Class(Seq<char>),
    StaticClass(Seq<char>),
}

impl View for ImportResult {
    type V = ImportResultView;

    open spec fn view(&self) -> ImportResultView {
        match self {
            ImportResult::Class(c) => ImportResultView::Class(c@),
            ImportResult::StaticClass(c) => ImportResultView::StaticClass(c@),
        }
    }
}

pub open spec fn opt_import_view(r: Option<ImportResult>) -> Option<ImportResultView> {
    match r {
        Some(x) => Some(x@),
        None => None,
    }
}

/// The class path `p.t`.
pub open spec fn joined(p: Seq<char>, t: Seq<char>) -> Seq<char> {
    p + seq!['.'] + t
}

/// What one import makes of the type name `t`: an import of a class (or a
/// static one) whose class name is `t` gives that class; a package or a
/// prefix (or a static prefix) gives `p.t` where the map holds it.
pub open spec fn import_match(m: Map<Seq<char>, ClassView>, i: ImportView, t: Seq<char>) -> Option<ImportResultView> {
    match i {
        ImportView::Class(c) => if spec_class_name(c) == Some(t) {
            Some(ImportResultView::Class(c))
        } else {
            None
        },
        ImportView::StaticClass(c) => if spec_class_name(c) == Some(t) {
            Some(ImportResultView::StaticClass(c))
        } else {
            None
        },
        ImportView::Package(p) => if m.dom().contains(joined(p, t)) {
            Some(ImportResultView::Class(joined(p, t)))
        } else {
            None
        },
        ImportView::Prefix(p) => if m.dom().contains(joined(p, t)) {
            Some(ImportResultView::Class(joined(p, t)))
        } else {
            None
        },
        ImportView::StaticPrefix(p) => if m.dom().contains(joined(p, t)) {
            Some(ImportResultView::StaticClass(joined(p, t)))
        } else {
            None
        },
        ImportView::StaticClassMethod(_, _) => None,
    }
}

/// What the first import that makes something of `t` makes of it.
pub open spec fn first_import(m: Map<Seq<char>, ClassView>, imports: Seq<ImportView>, t: Seq<char>) -> Option<ImportResultView>
    decreases imports.len(),
{
    if imports.len() == 0 {
        None
    } else {
        match import_match(m, imports[0], t) {
            Some(r) => Some(r),
            None => first_import(m, imports.drop_first(), t),
        }
    }
}

/// A name under `java.lang` is a class as it is; any other goes by the
/// imports (see `first_import`).
pub open spec fn import_of(m: Map<Seq<char>, ClassView>, imports: Seq<ImportView>, t: Seq<char>) -> Option<ImportResultView> {
    if starts_with(t, "java.lang"@) {
        Some(ImportResultView::Class(t))
    } else {
        first_import(m, imports, t)
    }
}

/// The string `p.t`.
fn join_path(p: &String, t: &str) -> (r: String)
    ensures
        r@ == joined(p@, t@),
{
    let mut r = p.clone();
    r.append(".");
    r.append(t);
    proof {
        reveal_strlit(".");
    }
    r
}

fn match_import(i: &ImportUnit, jtype: &str, class_map: &DashMap<String, Class>) -> (r: Option<ImportResult>)
    ensures
        opt_import_view(r) == import_match(class_map_contents(*class_map), i@, jtype@),
{
    match i {
        ImportUnit::Class(c) => {
            if ImportUnit::class_path_match_class_name(c.as_str(), jtype) {
                return Some(ImportResult::Class(c.clone()));
            }
            None
        },
        ImportUnit::StaticClass(c) => {
            if ImportUnit::class_path_match_class_name(c.as_str(), jtype) {
                return Some(ImportResult::StaticClass(c.clone()));
            }
            None
        },
        ImportUnit::Package(p) | ImportUnit::Prefix(p) => {
            let possible_class_path = join_path(p, jtype);
            if class_map_contains_key(class_map, &possible_class_path) {
                return Some(ImportResult::Class(possible_class_path));
            }
            None
        },
        ImportUnit::StaticPrefix(p) => {
            let possible_class_path = join_path(p, jtype);
            if class_map_contains_key(class_map, &possible_class_path) {
                return Some(ImportResult::StaticClass(possible_class_path));
            }
            None
        },
        ImportUnit::StaticClassMethod(_, _) => None,
    }
}

/// What the imports make of the type name `jtype` (see `import_of`).
pub fn is_imported(jtype: &str, imports: &[ImportUnit], class_map: &DashMap<String, Class>) -> (r: Option<ImportResult>)
    ensures
        opt_import_view(r) == import_of(class_map_contents(*class_map), imports_view(imports@), jtype@),
{
    let ghost m = class_map_contents(*class_map);
    let ghost iv = imports_view(imports@);
    proof {
        reveal_strlit("java.lang");
    }
    if starts_with_exec(&chars_of(jtype), &chars_of("java.lang")) {
        return Some(ImportResult::Class(jtype.to_string()));
    }
    let mut k: usize = 0;
    assert(iv.subrange(0, iv.len() as int) =~= iv);
    while k < imports.len()
        invariant
            k <= imports@.len(),
            iv == imports_view(imports@),
            m == class_map_contents(*class_map),
            !starts_with(jtype@, "java.lang"@),
            first_import(m, iv, jtype@) == first_import(m, iv.subrange(k as int, iv.len() as int), jtype@),
        decreases imports.len() - k,
    {
        let ghost rest = iv.subrange(k as int, iv.len() as int);
        assert(rest[0] == imports@[k as int]@);
        assert(rest.drop_first() =~= iv.subrange(k + 1, iv.len() as int));
        let r = match_import(&imports[k], jtype, class_map);
        if r.is_some() {
            return r;
        }
        k += 1;
    }
    None
}

/// Whether the imports make something of the type name `jtype`.
pub fn is_imported_class_name(jtype: &str, imports: &[ImportUnit], class_map: &DashMap<String, Class>) -> (b: bool)
    ensures
        b == (import_of(class_map_contents(*class_map), imports_view(imports@), jtype@) is Some),
{
    is_imported(jtype, imports, class_map).is_some()
}

/// Why a type or a call chain could not be resolved.
#[derive(Debug, PartialEq)]
pub enum TyresError {
    ClassNotFound { class_path: String },
    NoClassInOps,
    MethodNotFound(String),
    FieldNotFound(String),
    VariableNotFound(String),
    NotImported(String),
    CallChainInvalid(Vec<CallItem>),
    CallChainEmtpy,
    /// Value needs to be checked, type is var
    CheckValue,
}

pub enum TyresErrorView {
    ClassNotFound { class_path: Seq<char> },
    NoClassInOps,
    MethodNotFound(Seq<char>),
    FieldNotFound(Seq<char>),
    VariableNotFound(Seq<char>),
    NotImported(Seq<char>),
    CallChainInvalid(Seq<ItemView>),
    CallChainEmtpy,
    CheckValue,
}

impl View for TyresError {
    type V = TyresErrorView;

    open spec fn view(&self) -> TyresErrorView {
        match self {
            TyresError::ClassNotFound { class_path } => TyresErrorView::ClassNotFound { class_path: class_path@ },
            TyresError::NoClassInOps => TyresErrorView::NoClassInOps,
            TyresError::MethodNotFound(n) => TyresErrorView::MethodNotFound(n@),
            TyresError::FieldNotFound(n) => TyresErrorView::FieldNotFound(n@),
            TyresError::VariableNotFound(n) => TyresErrorView::VariableNotFound(n@),
            TyresError::NotImported(n) => TyresErrorView::NotImported(n@),
            TyresError::CallChainInvalid(c) => TyresErrorView::CallChainInvalid(chain_view(c@)),
            TyresError::CallChainEmtpy => TyresErrorView::CallChainEmtpy,
            TyresError::CheckValue => TyresErrorView::CheckValue,
        }
    }
}

/// A resolved type: the class that stands for it and the type itself.
#[derive(Debug, PartialEq)]
pub struct ResolveState {
    pub class: Class,
    pub jtype: JType,
}

pub struct StateView {
    pub class: ClassView,
    pub jtype: JTypeView,
}

impl View for ResolveState {
    type V = StateView;

    open spec fn view(&self) -> StateView {
        StateView { class: self.class@, jtype: self.jtype@ }
    }
}

pub open spec fn result_view(r: Result<ResolveState, TyresError>) -> Result<StateView, TyresErrorView> {
    match r {
        Ok(s) => Ok(s@),
        Err(e) => Err(e@),
    }
}

/// Every chain of parents of `c` in `m` ends.
pub open spec fn class_ends(m: Map<Seq<char>, ClassView>, c: ClassView) -> bool {
    &&& exists|f: nat| super_classes_end(m, c.super_class, f)
    &&& exists|f: nat| interfaces_end_list(m, c.super_interfaces, f)
}

/// No class of `m` is its own ancestor: every chain of parents of every
/// class ends.
pub open spec fn parents_end(m: Map<Seq<char>, ClassView>) -> bool {
    forall|k: Seq<char>| #[trigger] m.dom().contains(k) ==> class_ends(m, m[k])
}

/// The class found under `path`, with its parents.
pub open spec fn resolved(m: Map<Seq<char>, ClassView>, path: Seq<char>, c: ClassView) -> StateView {
    StateView { class: with_parents(m, c), jtype: JTypeView::Class(path) }
}

/// The class under `path`, or that none is there.
pub open spec fn found(m: Map<Seq<char>, ClassView>, path: Seq<char>) -> Result<StateView, TyresErrorView> {
    match lookup(m, path) {
        Some(c) => Ok(resolved(m, path, c)),
        None => Err(TyresErrorView::ClassNotFound { class_path: path }),
    }
}

pub open spec fn import_path(r: ImportResultView) -> Seq<char> {
    match r {
        ImportResultView::Class(c) => c,
        ImportResultView::StaticClass(c) => c,
    }
}

/// The class that the type name `t` stands for: a class path is looked up
/// as it is; a name, first under `java.lang.`, then where the imports put
/// it.
pub open spec fn spec_resolve(m: Map<Seq<char>, ClassView>, imports: Seq<ImportView>, t: Seq<char>) -> Result<
    StateView,
    TyresErrorView,
> {
    if contains_seq(t, seq!['.']) {
        found(m, t)
    } else if lookup(m, "java.lang."@ + t) is Some {
        found(m, "java.lang."@ + t)
    } else {
        match import_of(m, imports, t) {
            Some(r) => found(m, import_path(r)),
            None => Err(TyresErrorView::NotImported(t)),
        }
    }
}

/// The class under `path` in `class_map` with its parents (see `found`).
fn find_class(path: String, class_map: &DashMap<String, Class>) -> (r: Result<ResolveState, TyresError>)
    requires
        parents_end(class_map_contents(*class_map)),
    ensures
        result_view(r) == found(class_map_contents(*class_map), path@),
{
    let ghost m = class_map_contents(*class_map);
    match class_map_get(class_map, path.as_str()) {
        None => Err(TyresError::ClassNotFound { class_path: path }),
        Some(c) => {
            assert(m.dom().contains(path@));
            let class = inclued_parent(c, class_map);
            Ok(ResolveState { class, jtype: JType::Class(path) })
        },
    }
}

/// The class that the type name `jtype` stands for (see `spec_resolve`).
pub fn resolve(jtype: &str, imports: &[ImportUnit], class_map: &DashMap<String, Class>) -> (r: Result<
    ResolveState,
    TyresError,
>)
    requires
        parents_end(class_map_contents(*class_map)),
    ensures
        result_view(r) == spec_resolve(class_map_contents(*class_map), imports_view(imports@), jtype@),
{
    proof {
        reveal_strlit(".");
        reveal_strlit("java.lang.");
        assert("."@ =~= seq!['.']);
    }
    if str_contains(jtype, ".") {
        let path = jtype.to_string();
        assert(path@ == jtype@);
        return find_class(path, class_map);
    }
    let mut lang_class_key = "java.lang.".to_string();
    lang_class_key.append(jtype);
    assert(lang_class_key@ == "java.lang."@ + jtype@);
    if let Some(_) = class_map_get(class_map, lang_class_key.as_str()) {
        return find_class(lang_class_key, class_map);
    }
    match is_imported(jtype, imports, class_map) {
        Some(ImportResult::Class(c)) | Some(ImportResult::StaticClass(c)) => find_class(c, class_map),
        None => Err(TyresError::NotImported(jtype.to_string())),
    }
}

/// A class with nothing but a name.
pub open spec fn named_view(name: Seq<char>) -> ClassView {
    ClassView {
        class_path: seq![],
        source: seq![],
        access: 0,
        imports: seq![],
        name,
        methods: seq![],
        fields: seq![],
        super_class: SuperView::Empty,
        super_interfaces: seq![],
    }
}

/// The class of an array of type `j`: a method `clone` that gives `j` and
/// a field `length` of type `int`.
pub open spec fn array_view(j: JTypeView) -> ClassView {
    ClassView {
        methods: seq![
            MethodView { access: 0, name: "clone"@, parameters: seq![], throws: seq![], ret: j, source: None },
        ],
        fields: seq![FieldView { access: 0, name: "length"@, jtype: JTypeView::Int, source: None }],
        ..named_view("array"@)
    }
}

/// The name of the class that stands for a type without a class of its
/// own.
pub open spec fn builtin_name(j: JTypeView) -> Option<Seq<char>> {
    match j {
        JTypeView::Void => Some("void"@),
        JTypeView::Byte => Some("byte"@),
        JTypeView::Char => Some("char"@),
        JTypeView::Double => Some("double"@),
        JTypeView::Float => Some("float"@),
        JTypeView::Int => Some("int"@),
        JTypeView::Long => Some("long"@),
        JTypeView::Short => Some("short"@),
        JTypeView::Boolean => Some("boolean"@),
        JTypeView::Wildcard => Some("Wildcard"@),
        JTypeView::Parameter(p) => Some("<"@ + p + ">"@),
        _ => None,
    }
}

/// The class that the type `j` stands for: a primitive, `void`, a wildcard
/// or a type parameter stands for a class with its name only, an array for
/// the class of arrays, a class or a generic for the class its name
/// resolves to (see `spec_resolve`); `var` is not resolved.
pub open spec fn spec_resolve_jtype(m: Map<Seq<char>, ClassView>, imports: Seq<ImportView>, j: JTypeView) -> Result<
    StateView,
    TyresErrorView,
> {
    match j {
        JTypeView::Array(_) => Ok(StateView { class: array_view(j), jtype: j }),
        JTypeView::Class(c) => spec_resolve(m, imports, c),
        JTypeView::Generic(c, _) => spec_resolve(m, imports, c),
        JTypeView::Var => Err(TyresErrorView::CheckValue),
        _ => Ok(StateView { class: named_view(builtin_name(j)->0), jtype: j }),
    }
}

fn named_class(name: String) -> (r: Class)
    ensures
        r@ == named_view(name@),
{
    let r = Class {
        class_path: String::new(),
        source: String::new(),
        access: Access::empty(),
        imports: Vec::new(),
        name,
        methods: Vec::new(),
        fields: Vec::new(),
        super_class: SuperClass::Empty,
        super_interfaces: Vec::new(),
    };
    assert(crate::dto::imports_view(r.imports@) =~= Seq::<ImportView>::empty());
    assert(crate::dto::methods_view(r.methods@) =~= Seq::<MethodView>::empty());
    assert(crate::dto::fields_view(r.fields@) =~= Seq::<FieldView>::empty());
    assert(crate::dto::supers_view(r.super_interfaces@) =~= Seq::<SuperView>::empty());
    assert(r@ =~= named_view(name@));
    r
}

fn builtin(name: &str, jtype: &JType) -> (r: ResolveState)
    ensures
        r@ == (StateView { class: named_view(name@), jtype: jtype@ }),
{
    ResolveState { class: named_class(name.to_string()), jtype: jtype.clone() }
}

/// The class that the type `jtype` stands for (see `spec_resolve_jtype`).
pub fn resolve_jtype(jtype: &JType, imports: &[ImportUnit], class_map: &DashMap<String, Class>) -> (r: Result<
    ResolveState,
    TyresError,
>)
    requires
        parents_end(class_map_contents(*class_map)),
    ensures
        result_view(r) == spec_resolve_jtype(class_map_contents(*class_map), imports_view(imports@), jtype@),
{
    proof {
        reveal_strlit("void");
        reveal_strlit("byte");
        reveal_strlit("char");
        reveal_strlit("double");
        reveal_strlit("float");
        reveal_strlit("int");
        reveal_strlit("long");
        reveal_strlit("short");
        reveal_strlit("boolean");
        reveal_strlit("Wildcard");
        reveal_strlit("<");
        reveal_strlit(">");
        reveal_strlit("array");
        reveal_strlit("clone");
        reveal_strlit("length");
    }
    match jtype {
        JType::Void => Ok(builtin("void", jtype)),
        JType::Byte => Ok(builtin("byte", jtype)),
        JType::Char => Ok(builtin("char", jtype)),
        JType::Double => Ok(builtin("double", jtype)),
        JType::Float => Ok(builtin("float", jtype)),
        JType::Int => Ok(builtin("int", jtype)),
        JType::Long => Ok(builtin("long", jtype)),
        JType::Short => Ok(builtin("short", jtype)),
        JType::Boolean => Ok(builtin("boolean", jtype)),
        JType::Wildcard => Ok(builtin("Wildcard", jtype)),
        JType::Array(i) => {
            let mut class = named_class("array".to_string());
            let method = Method {
                access: Access::empty(),
                name: "clone".to_string(),
                parameters: Vec::new(),
                throws: Vec::new(),
                ret: JType::Array(Box::new((**i).clone())),
                source: None,
            };
            assert(crate::dto::params_view(method.parameters@) =~= Seq::<crate::dto::ParamView>::empty());
            assert(method@ == (MethodView {
                access: 0,
                name: "clone"@,
                parameters: seq![],
                throws: seq![],
                ret: jtype@,
                source: None,
            }));
            let field = Field { access: Access::empty(), name: "length".to_string(), jtype: JType::Int, source: None };
            let ghost mv = method@;
            let ghost fv = field@;
            class.methods.push(method);
            class.fields.push(field);
            assert(crate::dto::methods_view(class.methods@) =~= seq![mv]);
            assert(crate::dto::fields_view(class.fields@) =~= seq![fv]);
            let r = ResolveState { class, jtype: jtype.clone() };
            assert(r@.class =~= array_view(jtype@));
            Ok(r)
        },
        JType::Class(c) => resolve(c.as_str(), imports, class_map),
        JType::Generic(c, _vec) => resolve(c.as_str(), imports, class_map),
        JType::Parameter(p) => {
            let mut name = "<".to_string();
            name.append(p.as_str());
            name.append(">");
            Ok(ResolveState { class: named_class(name), jtype: jtype.clone() })
        },
        JType::Var => Err(TyresError::CheckValue),
    }
}

/// The class that the type of the variable `extend` stands for.
pub fn resolve_var(extend: &LocalVariable, imports: &[ImportUnit], class_map: &DashMap<String, Class>) -> (r: Result<
    ResolveState,
    TyresError,
>)
    requires
        parents_end(class_map_contents(*class_map)),
    ensures
        result_view(r) == spec_resolve_jtype(class_map_contents(*class_map), imports_view(imports@), extend@.jtype),
{
    resolve_jtype(&extend.jtype, imports, class_map)
}

/// The first method named `name`.
pub open spec fn first_method(ms: Seq<MethodView>, name: Seq<char>) -> Option<MethodView>
    decreases ms.len(),
{
    if ms.len() == 0 {
        None
    } else if ms[0].name == name {
        Some(ms[0])
    } else {
        first_method(ms.drop_first(), name)
    }
}

/// The first field named `name`.
pub open spec fn first_field(fs: Seq<FieldView>, name: Seq<char>) -> Option<FieldView>
    decreases fs.len(),
{
    if fs.len() == 0 {
        None
    } else if fs[0].name == name {
        Some(fs[0])
    } else {
        first_field(fs.drop_first(), name)
    }
}

/// The first variable named `name`.
pub open spec fn first_var(vs: Seq<VarView>, name: Seq<char>) -> Option<VarView>
    decreases vs.len(),
{
    if vs.len() == 0 {
        None
    } else if vs[0].name == name {
        Some(vs[0])
    } else {
        first_var(vs.drop_first(), name)
    }
}

pub open spec fn states_view(v: Seq<ResolveState>) -> Seq<StateView> {
    v.map_values(|s: ResolveState| s@)
}

/// What one link of a call chain resolves to, after the links before it
/// resolved to `ops`, in a file with the variables `vars` and the class
/// `class`: a method or a field of the last class resolved gives its type's
/// class; a variable its type's class; a class name the class; a name that
/// is no variable a class; an argument list the chain of the argument that
/// the cursor stands in, where there is one that is not empty and
/// `resolve_argument` holds, else the chain before it.
pub open spec fn op_result(
    m: Map<Seq<char>, ClassView>,
    imports: Seq<ImportView>,
    vars: Seq<VarView>,
    class: ClassView,
    ops: Seq<StateView>,
    item: ItemView,
    resolve_argument: bool,
) -> Result<StateView, TyresErrorView>
    decreases item, 0nat,
{
    match item {
        ItemView::MethodCall { name, .. } => if ops.len() == 0 {
            Err(TyresErrorView::NoClassInOps)
        } else {
            match first_method(ops.last().class.methods, name) {
                Some(method) => spec_resolve_jtype(m, imports, method.ret),
                None => Err(TyresErrorView::MethodNotFound(name)),
            }
        },
        ItemView::FieldAccess { name, .. } => if ops.len() == 0 {
            Err(TyresErrorView::NoClassInOps)
        } else {
            match first_field(ops.last().class.fields, name) {
                Some(field) => spec_resolve_jtype(m, imports, field.jtype),
                None => Err(TyresErrorView::FieldNotFound(name)),
            }
        },
        ItemView::Variable { name, .. } => match first_var(vars, name) {
            Some(v) => spec_resolve_jtype(m, imports, v.jtype),
            None => Err(TyresErrorView::VariableNotFound(name)),
        },
        ItemView::Class { name, .. } => spec_resolve(m, imports, name),
        ItemView::ClassOrVariable { name, .. } => match first_var(vars, name) {
            Some(v) => spec_resolve_jtype(m, imports, v.jtype),
            None => spec_resolve(m, imports, name),
        },
        ItemView::ArgumentList { prev, active_param, filled_params, .. } => if resolve_argument
            && active_param < filled_params.len() && filled_params[active_param as int].len() > 0 {
            chain_result(m, imports, vars, class, filled_params[active_param as int], true)
        } else {
            chain_result(m, imports, vars, class, prev, true)
        },
    }
}

/// The links of `chain` that resolved, each resolved after the ones
/// before it; a link that does not resolve is left out.
pub open spec fn ops_of(
    m: Map<Seq<char>, ClassView>,
    imports: Seq<ImportView>,
    vars: Seq<VarView>,
    class: ClassView,
    chain: Seq<ItemView>,
    resolve_argument: bool,
) -> Seq<StateView>
    decreases chain, 1nat,
{
    if chain.len() == 0 {
        seq![]
    } else {
        let ops = ops_of(m, imports, vars, class, chain.drop_last(), resolve_argument);
        match op_result(m, imports, vars, class, ops, chain.last(), resolve_argument) {
            Ok(s) => ops.push(s),
            Err(_) => ops,
        }
    }
}

/// What a call chain resolves to: what its last link that resolved
/// resolved to.
pub open spec fn chain_result(
    m: Map<Seq<char>, ClassView>,
    imports: Seq<ImportView>,
    vars: Seq<VarView>,
    class: ClassView,
    chain: Seq<ItemView>,
    resolve_argument: bool,
) -> Result<StateView, TyresErrorView>
    decreases chain, 2nat,
{
    if chain.len() == 0 {
        Err(TyresErrorView::CallChainEmtpy)
    } else {
        let ops = ops_of(m, imports, vars, class, chain, resolve_argument);
        if ops.len() == 0 {
            Err(TyresErrorView::CallChainInvalid(chain))
        } else {
            Ok(ops.last())
        }
    }
}

fn find_method<'a>(ms: &'a Vec<Method>, name: &str) -> (r: Option<&'a Method>)
    ensures
        match first_method(crate::dto::methods_view(ms@), name@) {
            Some(x) => r matches Some(y) && y@ == x,
            None => r is None,
        },
{
    let ghost all = crate::dto::methods_view(ms@);
    let mut k: usize = 0;
    assert(all.subrange(0, all.len() as int) =~= all);
    while k < ms.len()
        invariant
            k <= ms@.len(),
            all == crate::dto::methods_view(ms@),
            first_method(all, name@) == first_method(all.subrange(k as int, all.len() as int), name@),
        decreases ms.len() - k,
    {
        let ghost rest = all.subrange(k as int, all.len() as int);
        assert(rest.drop_first() =~= all.subrange(k + 1, all.len() as int));
        if str_eq(ms[k].name.as_str(), name) {
            return Some(&ms[k]);
        }
        k += 1;
    }
    None
}

pub(crate) fn find_field<'a>(fs: &'a Vec<Field>, name: &str) -> (r: Option<&'a Field>)
    ensures
        match first_field(crate::dto::fields_view(fs@), name@) {
            Some(x) => r matches Some(y) && y@ == x,
            None => r is None,
        },
{
    let ghost all = crate::dto::fields_view(fs@);
    let mut k: usize = 0;
    assert(all.subrange(0, all.len() as int) =~= all);
    while k < fs.len()
        invariant
            k <= fs@.len(),
            all == crate::dto::fields_view(fs@),
            first_field(all, name@) == first_field(all.subrange(k as int, all.len() as int), name@),
        decreases fs.len() - k,
    {
        let ghost rest = all.subrange(k as int, all.len() as int);
        assert(rest.drop_first() =~= all.subrange(k + 1, all.len() as int));
        if str_eq(fs[k].name.as_str(), name) {
            return Some(&fs[k]);
        }
        k += 1;
    }
    None
}

pub(crate) fn find_var<'a>(vs: &'a [LocalVariable], name: &str) -> (r: Option<&'a LocalVariable>)
    ensures
        match first_var(vars_view(vs@), name@) {
            Some(x) => r matches Some(y) && y@ == x,
            None => r is None,
        },
{
    let ghost all = vars_view(vs@);
    let mut k: usize = 0;
    assert(all.subrange(0, all.len() as int) =~= all);
    while k < vs.len()
        invariant
            k <= vs@.len(),
            all == vars_view(vs@),
            first_var(all, name@) == first_var(all.subrange(k as int, all.len() as int), name@),
        decreases vs.len() - k,
    {
        let ghost rest = all.subrange(k as int, all.len() as int);
        assert(rest.drop_first() =~= all.subrange(k + 1, all.len() as int));
        if str_eq(vs[k].name.as_str(), name) {
            return Some(&vs[k]);
        }
        k += 1;
    }
    None
}

fn copy_state(s: &ResolveState) -> (r: ResolveState)
    ensures
        r@ == s@,
{
    ResolveState { class: crate::dto::copy_class(&s.class), jtype: s.jtype.clone() }
}

fn copy_chain_slice(v: &[CallItem]) -> (r: Vec<CallItem>)
    ensures
        chain_view(r@) == chain_view(v@),
{
    let mut out: Vec<CallItem> = Vec::new();
    let mut k: usize = 0;
    while k < v.len()
        invariant
            k <= v@.len(),
            chain_view(out@) == chain_view(v@.take(k as int)),
        decreases v.len() - k,
    {
        let c = copy_item(&v[k]);
        let ghost before = out@;
        out.push(c);
        proof {
            lemma_chain_view_push(before, c);
            lemma_chain_view_push(v@.take(k as int), v@[k as int]);
            assert(v@.take(k + 1) =~= v@.take(k as int).push(v@[k as int]));
        }
        k += 1;
    }
    assert(v@.take(k as int) =~= v@);
    out
}

/// What the link `item` resolves to after `ops` (see `op_result`).
fn call_chain_op(
    item: &CallItem,
    ops: &Vec<ResolveState>,
    lo_va: &[LocalVariable],
    imports: &[ImportUnit],
    class: &Class,
    class_map: &DashMap<String, Class>,
    resolve_argument: bool,
) -> (r: Result<ResolveState, TyresError>)
    requires
        parents_end(class_map_contents(*class_map)),
    ensures
        result_view(r) == op_result(
            class_map_contents(*class_map),
            imports_view(imports@),
            vars_view(lo_va@),
            class@,
            states_view(ops@),
            item@,
            resolve_argument,
        ),
    decreases *item, 0nat,
{
    match item {
        CallItem::MethodCall { name, range: _ } => {
            if ops.len() == 0 {
                return Err(TyresError::NoClassInOps);
            }
            let last = &ops[ops.len() - 1];
            assert(states_view(ops@).last() == last@);
            if let Some(method) = find_method(&last.class.methods, name.as_str()) {
                return resolve_jtype(&method.ret, imports, class_map);
            }
            Err(TyresError::MethodNotFound(name.clone()))
        },
        CallItem::FieldAccess { name, range: _ } => {
            if ops.len() == 0 {
                return Err(TyresError::NoClassInOps);
            }
            let last = &ops[ops.len() - 1];
            assert(states_view(ops@).last() == last@);
            if let Some(field) = find_field(&last.class.fields, name.as_str()) {
                return resolve_jtype(&field.jtype, imports, class_map);
            }
            Err(TyresError::FieldNotFound(name.clone()))
        },
        CallItem::Variable { name, range: _ } => {
            if let Some(lo) = find_var(lo_va, name.as_str()) {
                return resolve_var(lo, imports, class_map);
            }
            Err(TyresError::VariableNotFound(name.clone()))
        },
        CallItem::Class { name, range: _ } => resolve(name.as_str(), imports, class_map),
        CallItem::ClassOrVariable { name, range: _ } => {
            if let Some(lo) = find_var(lo_va, name.as_str()) {
                return resolve_var(lo, imports, class_map);
            }
            resolve(name.as_str(), imports, class_map)
        },
        CallItem::ArgumentList { prev, range: _, active_param, filled_params } => {
            proof {
                lemma_params_view_len(filled_params@);
                if (*active_param as int) < filled_params@.len() {
                    lemma_params_view_index(filled_params@, *active_param as int);
                    lemma_chain_view_len(filled_params@[*active_param as int]@);
                }
            }
            if resolve_argument && *active_param < filled_params.len() && filled_params[*active_param].len() > 0 {
                let current_param = &filled_params[*active_param];
                proof {
                    lemma_params_view_index(filled_params@, *active_param as int);
                    lemma_chain_view_len(current_param@);
                    assert(decreases_to!(*item => filled_params));
                    assert(decreases_to!(filled_params => filled_params@));
                    assert(decreases_to!(filled_params@ => filled_params@[*active_param as int]));
                    assert(decreases_to!(*current_param => current_param@));
                }
                return resolve_call_chain(current_param.as_slice(), lo_va, imports, class, class_map);
            }
            proof {
                assert(decreases_to!(*item => prev));
                assert(decreases_to!(*prev => prev@));
            }
            resolve_call_chain(prev.as_slice(), lo_va, imports, class, class_map)
        },
    }
}

/// What `call_chain` resolves to, with `resolve_argument` handed to each
/// link (see `chain_result`).
fn resolve_chain_with(
    call_chain: &[CallItem],
    lo_va: &[LocalVariable],
    imports: &[ImportUnit],
    class: &Class,
    class_map: &DashMap<String, Class>,
    resolve_argument: bool,
) -> (r: Result<ResolveState, TyresError>)
    requires
        parents_end(class_map_contents(*class_map)),
    ensures
        result_view(r) == chain_result(
            class_map_contents(*class_map),
            imports_view(imports@),
            vars_view(lo_va@),
            class@,
            chain_view(call_chain@),
            resolve_argument,
        ),
    decreases call_chain@, 1nat,
{
    let ghost m = class_map_contents(*class_map);
    let ghost iv = imports_view(imports@);
    let ghost vv = vars_view(lo_va@);
    let ghost cv = chain_view(call_chain@);
    proof {
        lemma_chain_view_len(call_chain@);
    }
    if call_chain.len() == 0 {
        return Err(TyresError::CallChainEmtpy);
    }
    let mut ops: Vec<ResolveState> = Vec::new();
    let mut k: usize = 0;
    assert(cv.take(0) =~= Seq::<ItemView>::empty());
    assert(states_view(ops@) =~= Seq::<StateView>::empty());
    while k < call_chain.len()
        invariant
            k <= call_chain@.len(),
            cv == chain_view(call_chain@),
            cv.len() == call_chain@.len(),
            m == class_map_contents(*class_map),
            iv == imports_view(imports@),
            vv == vars_view(lo_va@),
            parents_end(m),
            states_view(ops@) == ops_of(m, iv, vv, class@, cv.take(k as int), resolve_argument),
        decreases call_chain.len() - k,
    {
        proof {
            lemma_chain_view_index(call_chain@, k as int);
            assert(cv.take(k + 1).drop_last() =~= cv.take(k as int));
            assert(cv.take(k + 1).last() == call_chain@[k as int]@);
            assert(decreases_to!(call_chain@ => call_chain@[k as int]));
        }
        let op = call_chain_op(&call_chain[k], &ops, lo_va, imports, class, class_map, resolve_argument);
        if let Ok(op) = op {
            let ghost before = ops@;
            ops.push(op);
            assert(states_view(ops@) =~= states_view(before).push(op@));
        }
        k += 1;
    }
    assert(cv.take(k as int) =~= cv);
    if ops.len() == 0 {
        return Err(TyresError::CallChainInvalid(copy_chain_slice(call_chain)));
    }
    let last = &ops[ops.len() - 1];
    assert(states_view(ops@).last() == last@);
    Ok(copy_state(last))
}

/// What `call_chain` resolves to (see `chain_result`); in an argument
/// list, the argument that the cursor stands in counts.
pub fn resolve_call_chain(
    call_chain: &[CallItem],
    lo_va: &[LocalVariable],
    imports: &[ImportUnit],
    class: &Class,
    class_map: &DashMap<String, Class>,
) -> (r: Result<ResolveState, TyresError>)
    requires
        parents_end(class_map_contents(*class_map)),
    ensures
        result_view(r) == chain_result(
            class_map_contents(*class_map),
            imports_view(imports@),
            vars_view(lo_va@),
            class@,
            chain_view(call_chain@),
            true,
        ),
    decreases call_chain@, 2nat,
{
    resolve_chain_with(call_chain, lo_va, imports, class, class_map, true)
}

/// What `call_chain` resolves to (see `chain_result`); an argument list
/// stands for the chain before it.
pub fn resolve_call_chain_value(
    call_chain: &[CallItem],
    lo_va: &[LocalVariable],
    imports: &[ImportUnit],
    class: &Class,
    class_map: &DashMap<String, Class>,
) -> (r: Result<ResolveState, TyresError>)
    requires
        parents_end(class_map_contents(*class_map)),
    ensures
        result_view(r) == chain_result(
            class_map_contents(*class_map),
            imports_view(imports@),
            vars_view(lo_va@),
            class@,
            chain_view(call_chain@),
            false,
        ),
{
    resolve_chain_with(call_chain, lo_va, imports, class, class_map, false)
}

/// A link lies after `point` where its range starts after it.
pub open spec fn after_point(i: ItemView, point: Point) -> bool {
    point_lt(point, range_of(i).start_point)
}

/// The index of the first link from `i` on that lies after `point`, or the
/// length of the chain.
pub open spec fn first_after(chain: Seq<ItemView>, point: Point, i: int) -> int
    decreases chain.len() - i,
{
    if i < 0 || i >= chain.len() {
        chain.len() as int
    } else if after_point(chain[i], point) {
        i
    } else {
        first_after(chain, point, i + 1)
    }
}

/// What `chain` resolves to up to `point`: the links before the first one
/// that lies after the point resolve as in `chain_result`; an error for an
/// empty or invalid chain names the whole chain.
pub open spec fn to_point_result(
    m: Map<Seq<char>, ClassView>,
    imports: Seq<ImportView>,
    vars: Seq<VarView>,
    class: ClassView,
    chain: Seq<ItemView>,
    point: Point,
) -> Result<StateView, TyresErrorView> {
    if chain.len() == 0 {
        Err(TyresErrorView::CallChainEmtpy)
    } else {
        let ops = ops_of(m, imports, vars, class, chain.take(first_after(chain, point, 0)), true);
        if ops.len() == 0 {
            Err(TyresErrorView::CallChainInvalid(chain))
        } else {
            Ok(ops.last())
        }
    }
}

proof fn lemma_first_after_skip(chain: Seq<ItemView>, point: Point, i: int, k: int)
    requires
        0 <= i <= k <= chain.len(),
        forall|j: int| i <= j < k ==> !after_point(#[trigger] chain[j], point),
    ensures
        first_after(chain, point, i) == first_after(chain, point, k),
    decreases k - i,
{
    if i < k {
        lemma_first_after_skip(chain, point, i + 1, k);
    }
}

fn point_before(a: &Point, b: &Point) -> (r: bool)
    ensures
        r == point_lt(*a, *b),
{
    !(b.row < a.row || (b.row == a.row && b.column <= a.column))
}

/// What `call_chain` resolves to up to `point` (see `to_point_result`).
/// A link counts as lying after the point where its range starts after it.
pub fn resolve_call_chain_to_point(
    call_chain: &[CallItem],
    lo_va: &[LocalVariable],
    imports: &[ImportUnit],
    class: &Class,
    class_map: &DashMap<String, Class>,
    point: &Point,
) -> (r: Result<ResolveState, TyresError>)
    requires
        parents_end(class_map_contents(*class_map)),
    ensures
        result_view(r) == to_point_result(
            class_map_contents(*class_map),
            imports_view(imports@),
            vars_view(lo_va@),
            class@,
            chain_view(call_chain@),
            *point,
        ),
{
    let ghost m = class_map_contents(*class_map);
    let ghost iv = imports_view(imports@);
    let ghost vv = vars_view(lo_va@);
    let ghost cv = chain_view(call_chain@);
    proof {
        lemma_chain_view_len(call_chain@);
    }
    if call_chain.len() == 0 {
        return Err(TyresError::CallChainEmtpy);
    }
    let mut ops: Vec<ResolveState> = Vec::new();
    let mut k: usize = 0;
    assert(cv.take(0) =~= Seq::<ItemView>::empty());
    assert(states_view(ops@) =~= Seq::<StateView>::empty());
    while k < call_chain.len()
        invariant_except_break
            k <= call_chain@.len(),
            cv == chain_view(call_chain@),
            cv.len() == call_chain@.len(),
            m == class_map_contents(*class_map),
            iv == imports_view(imports@),
            vv == vars_view(lo_va@),
            parents_end(m),
            forall|j: int| 0 <= j < k ==> !after_point(#[trigger] cv[j], *point),
            k == cv.len() ==> first_after(cv, *point, 0) == k,
            states_view(ops@) == ops_of(m, iv, vv, class@, cv.take(k as int), true),
        ensures
            k <= cv.len(),
            first_after(cv, *point, 0) == k,
            states_view(ops@) == ops_of(m, iv, vv, class@, cv.take(k as int), true),
        decreases call_chain.len() - k,
    {
        proof {
            lemma_chain_view_index(call_chain@, k as int);
        }
        if point_before(point, &range_at(&call_chain[k]).start_point) {
            proof {
                lemma_first_after_skip(cv, *point, 0, k as int);
            }
            break;
        }
        proof {
            assert(cv.take(k + 1).drop_last() =~= cv.take(k as int));
            assert(cv.take(k + 1).last() == call_chain@[k as int]@);
            assert(decreases_to!(call_chain@ => call_chain@[k as int]));
        }
        let op = call_chain_op(&call_chain[k], &ops, lo_va, imports, class, class_map, true);
        if let Ok(op) = op {
            let ghost before = ops@;
            ops.push(op);
            assert(states_view(ops@) =~= states_view(before).push(op@));
        }
        k += 1;
        proof {
            if k == call_chain.len() {
                lemma_first_after_skip(cv, *point, 0, k as int);
            }
        }
    }
    if ops.len() == 0 {
        return Err(TyresError::CallChainInvalid(copy_chain_slice(call_chain)));
    }
    let last = &ops[ops.len() - 1];
    assert(states_view(ops@).last() == last@);
    Ok(copy_state(last))
}

/// What each of the chains `params` resolves to (see `resolve_call_chain`).
pub fn resolve_params(
    params: Vec<Vec<CallItem>>,
    lo_va: &[LocalVariable],
    imports: &[ImportUnit],
    class: &Class,
    class_map: &DashMap<String, Class>,
) -> (r: Vec<Result<ResolveState, TyresError>>)
    requires
        parents_end(class_map_contents(*class_map)),
    ensures
        r@.len() == params@.len(),
        forall|i: int|
            0 <= i < params@.len() ==> result_view(#[trigger] r@[i]) == chain_result(
                class_map_contents(*class_map),
                imports_view(imports@),
                vars_view(lo_va@),
                class@,
                chain_view(params@[i]@),
                true,
            ),
{
    let mut out: Vec<Result<ResolveState, TyresError>> = Vec::new();
    let mut k: usize = 0;
    while k < params.len()
        invariant
            k <= params@.len(),
            out@.len() == k,
            parents_end(class_map_contents(*class_map)),
            forall|i: int|
                0 <= i < k ==> result_view(#[trigger] out@[i]) == chain_result(
                    class_map_contents(*class_map),
                    imports_view(imports@),
                    vars_view(lo_va@),
                    class@,
                    chain_view(params@[i]@),
                    true,
                ),
        decreases params.len() - k,
    {
        let r = resolve_call_chain(params[k].as_slice(), lo_va, imports, class, class_map);
        out.push(r);
        k += 1;
    }
    out
}

/// Calls `DashMap::clone`, `DashMap::into_read_only` and
/// `ReadOnlyView::keys`: each class path that the map holds once, in an
/// order that the map's hashing decides.
#[verifier::external_body]
pub(crate) fn class_map_keys(class_map: &DashMap<String, Class>) -> (r: Vec<String>)
    ensures
        forall|i: int| 0 <= i < r@.len() ==> class_map_contents(*class_map).dom().contains(#[trigger] r@[i]@),
        forall|k: Seq<char>|
            #[trigger] class_map_contents(*class_map).dom().contains(k) ==> exists|i: int|
                0 <= i < r@.len() && r@[i]@ == k,
        forall|i: int, j: int| 0 <= i < j < r@.len() ==> r@[i]@ != r@[j]@,
{
    class_map.clone().into_read_only().keys().cloned().collect()
}

/// The class paths of `class_map` that `infl` keeps, each once: every one
/// returned was kept, and every other one in the map was refused.
pub fn resolve_class_key(class_map: &DashMap<String, Class>, infl: impl Fn(&String) -> bool) -> (r: Vec<String>)
    requires
        forall|s: &String| infl.requires((s,)),
    ensures
        forall|i: int|
            0 <= i < r@.len() ==> class_map_contents(*class_map).dom().contains(#[trigger] r@[i]@) && infl.ensures(
                (&r@[i],),
                true,
            ),
        forall|k: Seq<char>|
            #[trigger] class_map_contents(*class_map).dom().contains(k) ==> (exists|i: int|
                0 <= i < r@.len() && r@[i]@ == k) || (exists|s: String| s@ == k && infl.ensures((&s,), false)),
        forall|i: int, j: int| 0 <= i < j < r@.len() ==> r@[i]@ != r@[j]@,
{
    let ghost m = class_map_contents(*class_map);
    let keys = class_map_keys(class_map);
    let mut out: Vec<String> = Vec::new();
    let mut k: usize = 0;
    while k < keys.len()
        invariant
            k <= keys@.len(),
            m == class_map_contents(*class_map),
            forall|s: &String| infl.requires((s,)),
            forall|i: int| 0 <= i < keys@.len() ==> m.dom().contains(#[trigger] keys@[i]@),
            forall|i: int, j: int| 0 <= i < j < keys@.len() ==> keys@[i]@ != keys@[j]@,
            forall|i: int|
                0 <= i < out@.len() ==> m.dom().contains(#[trigger] out@[i]@) && infl.ensures((&out@[i],), true),
            forall|i: int|
                0 <= i < out@.len() ==> exists|j: int| 0 <= j < k && #[trigger] out@[i]@ == keys@[j]@,
            forall|j: int|
                0 <= j < k ==> (exists|i: int| 0 <= i < out@.len() && out@[i]@ == #[trigger] keys@[j]@) || infl.ensures(
                    (&keys@[j],),
                    false,
                ),
            forall|i: int, j: int| 0 <= i < j < out@.len() ==> out@[i]@ != out@[j]@,
        decreases keys.len() - k,
    {
        let key = &keys[k];
        if infl(key) {
            let ghost before = out@;
            out.push(key.clone());
            assert(out@[before.len() as int]@ == keys@[k as int]@);
            assert forall|i: int| 0 <= i < before.len() implies out@[i]@ != keys@[k as int]@ by {
                let j = choose|j: int| 0 <= j < k && #[trigger] before[i]@ == keys@[j]@;
            }
            assert forall|i: int| 0 <= i < out@.len() implies exists|j: int| 0 <= j < k + 1 && #[trigger] out@[i]@
                == keys@[j]@ by {
                if i < before.len() {
                    let j = choose|j: int| 0 <= j < k && #[trigger] before[i]@ == keys@[j]@;
                    assert(out@[i]@ == keys@[j]@);
                } else {
                    assert(out@[i]@ == keys@[k as int]@);
                }
            }
            assert forall|j: int| 0 <= j < k + 1 implies (exists|i: int|
                0 <= i < out@.len() && out@[i]@ == #[trigger] keys@[j]@) || infl.ensures((&keys@[j],), false) by {
                if j == k {
                    assert(out@[before.len() as int]@ == keys@[j]@);
                } else if !infl.ensures((&keys@[j],), false) {
                    let i = choose|i: int| 0 <= i < before.len() && before[i]@ == #[trigger] keys@[j]@;
                    assert(out@[i]@ == keys@[j]@);
                }
            }
        }
        k += 1;
    }
    assert forall|key: Seq<char>| #[trigger] m.dom().contains(key) implies (exists|i: int|
        0 <= i < out@.len() && out@[i]@ == key) || (exists|s: String| s@ == key && infl.ensures((&s,), false)) by {
        let j = choose|j: int| 0 <= j < keys@.len() && keys@[j]@ == key;
        if !(exists|i: int| 0 <= i < out@.len() && out@[i]@ == key) {
            if !infl.ensures((&keys@[j],), false) {
                let i = choose|i: int| 0 <= i < out@.len() && out@[i]@ == #[trigger] keys@[j]@;
            }
        }
    }
    out
}

/// The class paths of `class_map` that start with `jtype`, each once.
pub fn resolve_import(jtype: &str, class_map: &DashMap<String, Class>) -> (r: Vec<String>)
    ensures
        forall|i: int|
            0 <= i < r@.len() ==> class_map_contents(*class_map).dom().contains(#[trigger] r@[i]@) && starts_with(
                r@[i]@,
                jtype@,
            ),
        forall|k: Seq<char>|
            #[trigger] class_map_contents(*class_map).dom().contains(k) && starts_with(k, jtype@) ==> exists|i: int|
                0 <= i < r@.len() && r@[i]@ == k,
        forall|i: int, j: int| 0 <= i < j < r@.len() ==> r@[i]@ != r@[j]@,
{
    let prefix = chars_of(jtype);
    let infl = |p: &String| -> (b: bool)
        ensures
            b == starts_with(p@, jtype@),
        { starts_with_exec(&chars_of(p.as_str()), &prefix) };
    resolve_class_key(class_map, infl)
}

/// Every chain of parents of `c` in `m` ends within `depth` steps.
pub open spec fn ends_within(m: Map<Seq<char>, ClassView>, c: ClassView, depth: nat) -> bool {
    super_classes_end(m, c.super_class, depth) && interfaces_end_list(m, c.super_interfaces, depth)
}

/// Every chain of parents of every class of `m` ends within `depth` steps.
pub open spec fn all_end_within(m: Map<Seq<char>, ClassView>, depth: nat) -> bool {
    forall|k: Seq<char>| #[trigger] m.dom().contains(k) ==> ends_within(m, m[k], depth)
}

/// Whether every chain of parents of every class of `class_map` ends
/// within `depth` steps; where it does, no class of the map is its own
/// ancestor, as resolving asks.
pub fn parents_end_within(class_map: &DashMap<String, Class>, depth: usize) -> (b: bool)
    ensures
        b == all_end_within(class_map_contents(*class_map), depth as nat),
        b ==> parents_end(class_map_contents(*class_map)),
{
    let ghost m = class_map_contents(*class_map);
    let keys = class_map_keys(class_map);
    let mut k: usize = 0;
    while k < keys.len()
        invariant
            k <= keys@.len(),
            m == class_map_contents(*class_map),
            forall|i: int| 0 <= i < keys@.len() ==> m.dom().contains(#[trigger] keys@[i]@),
            forall|key: Seq<char>| #[trigger] m.dom().contains(key) ==> exists|i: int| 0 <= i < keys@.len() && keys@[i]@ == key,
            forall|i: int| 0 <= i < k ==> ends_within(m, m[#[trigger] keys@[i]@], depth as nat),
        decreases keys.len() - k,
    {
        assert(m.dom().contains(keys@[k as int]@));
        match class_map_get(class_map, keys[k].as_str()) {
            Some(c) => {
                assert(supers_view_of(c.super_interfaces@) == c@.super_interfaces);
                if !(super_chain_ends(&c.super_class, class_map, depth) && interfaces_list_end(
                    &c.super_interfaces,
                    class_map,
                    depth,
                )) {
                    return false;
                }
            },
            None => {},
        }
        k += 1;
    }
    assert forall|key: Seq<char>| #[trigger] m.dom().contains(key) implies ends_within(m, m[key], depth as nat) by {
        let i = choose|i: int| 0 <= i < keys@.len() && keys@[i]@ == key;
        assert(ends_within(m, m[keys@[i]@], depth as nat));
    }
    assert forall|key: Seq<char>| #[trigger] m.dom().contains(key) implies class_ends(m, m[key]) by {
        assert(ends_within(m, m[key], depth as nat));
        assert(super_classes_end(m, m[key].super_class, depth as nat));
        assert(interfaces_end_list(m, m[key].super_interfaces, depth as nat));
    }
    true
}

/// A type name that resolves stands for a class path that the map holds:
/// the class under it, with its parents.
pub proof fn lemma_resolved_in_map(m: Map<Seq<char>, ClassView>, imports: Seq<ImportView>, t: Seq<char>)
    ensures
        spec_resolve(m, imports, t) matches Ok(s) ==> (s.jtype matches JTypeView::Class(p) && m.dom().contains(p)
            && s.class == with_parents(m, m[p])),
{
}

/// A chain without argument lists resolves the same whether the argument
/// that the cursor stands in counts or not.
pub proof fn lemma_value_chain_same(
    m: Map<Seq<char>, ClassView>,
    imports: Seq<ImportView>,
    vars: Seq<VarView>,
    class: ClassView,
    chain: Seq<ItemView>,
)
    requires
        forall|i: int| 0 <= i < chain.len() ==> !(#[trigger] chain[i] is ArgumentList),
    ensures
        chain_result(m, imports, vars, class, chain, true) == chain_result(m, imports, vars, class, chain, false),
{
    lemma_ops_same(m, imports, vars, class, chain);
}

proof fn lemma_ops_same(
    m: Map<Seq<char>, ClassView>,
    imports: Seq<ImportView>,
    vars: Seq<VarView>,
    class: ClassView,
    chain: Seq<ItemView>,
)
    requires
        forall|i: int| 0 <= i < chain.len() ==> !(#[trigger] chain[i] is ArgumentList),
    ensures
        ops_of(m, imports, vars, class, chain, true) == ops_of(m, imports, vars, class, chain, false),
    decreases chain.len(),
{
    if chain.len() > 0 {
        let rest = chain.drop_last();
        assert forall|i: int| 0 <= i < rest.len() implies !(#[trigger] rest[i] is ArgumentList) by {
            assert(rest[i] == chain[i]);
        }
        lemma_ops_same(m, imports, vars, class, rest);
        assert(!(chain[chain.len() - 1] is ArgumentList));
        let ops = ops_of(m, imports, vars, class, rest, true);
        assert(op_result(m, imports, vars, class, ops, chain.last(), true) == op_result(
            m,
            imports,
            vars,
            class,
            ops,
            chain.last(),
            false,
        ));
    }
}

} // verus!
