//! Signature help: the methods that the argument list at the cursor may be
//! calling, and which of them and which of its parameters are active.
use vstd::prelude::*;

use crate::call_chain_ranges::{
    chain_view, get_call_chain, lemma_chain_view_index, lemma_chain_view_len, spec_call_chain, walk_meets_parens,
    CallItem, ItemView,
};
use crate::document::Document;
use crate::dto::{display, imports_view, methods_view, Class, ImportUnit, ImportView, MethodView, ParamView};
use crate::imports::{imported_classpaths, imports};
use crate::java::syntax::{nodes_view, well_placed};
use crate::text::str_eq;
use crate::treesitter::Point;
use crate::tyres::parent::class_map_contents;
use crate::tyres::{chain_result, parents_end, resolve_call_chain, StateView, TyresError, TyresErrorView};
use crate::variable::{get_vars, vars_from, vars_view, LocalVariable, VarView};
use dashmap::DashMap;
use vstd::utf8::encode_utf8;

verus! {

/// Why no signature help was found.
#[derive(Debug)]
pub enum SignatureError {
    Tyres(TyresError),
    NotAnArgumentList,
    CouldNotGetMethod,
    CouldNoteGetActiveSignature,
    NoCallChain,
}

pub enum SigErrView {
    Tyres(TyresErrorView),
    NotAnArgumentList,
    CouldNotGetMethod,
    CouldNoteGetActiveSignature,
    NoCallChain,
}

impl View for SignatureError {
    type V = SigErrView;

    open spec fn view(&self) -> SigErrView {
        match self {
            SignatureError::Tyres(e) => SigErrView::Tyres(e@),
            SignatureError::NotAnArgumentList => SigErrView::NotAnArgumentList,
            SignatureError::CouldNotGetMethod => SigErrView::CouldNotGetMethod,
            SignatureError::CouldNoteGetActiveSignature => SigErrView::CouldNoteGetActiveSignature,
            SignatureError::NoCallChain => SigErrView::NoCallChain,
        }
    }
}

/// One parameter of a signature: its type, and its name where it has one.
#[derive(Debug, PartialEq)]
pub struct ParameterInformation {
    pub label: String,
    pub documentation: Option<String>,
}

/// One signature: the method's name, its return type, and its parameters.
#[derive(Debug, PartialEq)]
pub struct SignatureInformation {
    pub label: String,
    pub documentation: String,
    pub parameters: Vec<ParameterInformation>,
}

/// The signatures, the active one and the active parameter.
#[derive(Debug, PartialEq)]
pub struct SignatureHelp {
    pub signatures: Vec<SignatureInformation>,
    pub active_signature: Option<u32>,
    pub active_parameter: Option<u32>,
}

pub struct ParamInfoView {
    pub label: Seq<char>,
    pub documentation: Option<Seq<char>>,
}

pub struct SigInfoView {
    pub label: Seq<char>,
    pub documentation: Seq<char>,
    pub parameters: Seq<ParamInfoView>,
}

pub struct HelpView {
    pub signatures: Seq<SigInfoView>,
    pub active_signature: Option<u32>,
    pub active_parameter: Option<u32>,
}

pub open spec fn param_info_view(p: ParameterInformation) -> ParamInfoView {
    ParamInfoView { label: p.label@, documentation: crate::dto::opt_view(p.documentation) }
}

pub open spec fn sig_info_view(s: SignatureInformation) -> SigInfoView {
    SigInfoView {
        label: s.label@,
        documentation: s.documentation@,
        parameters: s.parameters@.map_values(|p: ParameterInformation| param_info_view(p)),
    }
}

pub open spec fn help_result(r: Result<SignatureHelp, SignatureError>) -> Result<HelpView, SigErrView> {
    match r {
        Ok(h) => Ok(
            HelpView {
                signatures: h.signatures@.map_values(|s: SignatureInformation| sig_info_view(s)),
                active_signature: h.active_signature,
                active_parameter: h.active_parameter,
            },
        ),
        Err(e) => Err(e@),
    }
}

/// A parameter's information: its type as written, and its name.
pub open spec fn param_info(p: ParamView) -> ParamInfoView {
    ParamInfoView { label: display(p.jtype), documentation: p.name }
}

/// A method's signature: its name, its return type as written, and its
/// parameters.
pub open spec fn sig_info(m: MethodView) -> SigInfoView {
    SigInfoView {
        label: m.name,
        documentation: display(m.ret),
        parameters: m.parameters.map_values(|p: ParamView| param_info(p)),
    }
}

/// The last argument list of a chain.
pub open spec fn last_arg_list(chain: Seq<ItemView>) -> Option<ItemView>
    decreases chain.len(),
{
    if chain.len() == 0 {
        None
    } else if chain.last() is ArgumentList {
        Some(chain.last())
    } else {
        last_arg_list(chain.drop_last())
    }
}

/// The methods named `name`, in order.
pub open spec fn named_methods(ms: Seq<MethodView>, name: Seq<char>) -> Seq<MethodView>
    decreases ms.len(),
{
    if ms.len() == 0 {
        seq![]
    } else {
        named_methods(ms.drop_last(), name) + if ms.last().name == name {
            seq![ms.last()]
        } else {
            seq![]
        }
    }
}

/// The index of the first of `ms` from `i` on with more than `k`
/// parameters.
pub open spec fn first_fitting(ms: Seq<MethodView>, k: nat, i: int) -> Option<int>
    decreases ms.len() - i,
{
    if i < 0 || i >= ms.len() {
        None
    } else if ms[i].parameters.len() > k {
        Some(i)
    } else {
        first_fitting(ms, k, i + 1)
    }
}

pub open spec fn as_u32(n: int) -> Option<u32> {
    if 0 <= n <= u32::MAX {
        Some(n as u32)
    } else {
        None
    }
}

/// The signature help for a call chain: its last argument list must follow
/// a method call; the chain before that call resolves to a class (see
/// `chain_result`), whose methods of that name are the signatures, the
/// first with more parameters than the active one's index the active one.
pub open spec fn signature_of(
    m: Map<Seq<char>, ClassView>,
    imports: Seq<ImportView>,
    vars: Seq<VarView>,
    class: ClassView,
    chain: Seq<ItemView>,
) -> Result<HelpView, SigErrView> {
    match last_arg_list(chain) {
        Some(ItemView::ArgumentList { prev, active_param, .. }) => if prev.len() == 0 {
            Err(SigErrView::CouldNotGetMethod)
        } else {
            match prev.last() {
                ItemView::MethodCall { name, .. } => match chain_result(m, imports, vars, class, prev, true) {
                    Err(e) => Err(SigErrView::Tyres(e)),
                    Ok(st) => {
                        let ms = named_methods(st.class.methods, name);
                        match first_fitting(ms, active_param, 0) {
                            None => Err(SigErrView::CouldNoteGetActiveSignature),
                            Some(j) => Ok(
                                HelpView {
                                    signatures: ms.map_values(|mv: MethodView| sig_info(mv)),
                                    active_signature: as_u32(j),
                                    active_parameter: as_u32(active_param as int),
                                },
                            ),
                        }
                    },
                },
                _ => Err(SigErrView::CouldNotGetMethod),
            }
        },
        _ => Err(SigErrView::NotAnArgumentList),
    }
}

use crate::dto::ClassView;

fn method_to_signature_information(method: &crate::dto::Method) -> (r: SignatureInformation)
    ensures
        sig_info_view(r) == sig_info(method@),
{
    let mut parameters: Vec<ParameterInformation> = Vec::new();
    let ghost ps = method@.parameters;
    let mut k: usize = 0;
    while k < method.parameters.len()
        invariant
            k <= method.parameters@.len(),
            ps == method@.parameters,
            ps.len() == method.parameters@.len(),
            parameters@.map_values(|p: ParameterInformation| param_info_view(p)) == ps.take(k as int).map_values(
                |p: ParamView| param_info(p),
            ),
        decreases method.parameters.len() - k,
    {
        let p = &method.parameters[k];
        let info = ParameterInformation {
            label: p.jtype.display_string(),
            documentation: crate::dto::copy_opt_string(&p.name),
        };
        let ghost before = parameters@;
        let ghost iv = param_info_view(info);
        assert(ps[k as int] == p@);
        assert(iv == param_info(ps[k as int]));
        parameters.push(info);
        proof {
            assert(parameters@ =~= before.push(info));
            assert(before.push(info).map_values(|p: ParameterInformation| param_info_view(p)) =~= before.map_values(
                |p: ParameterInformation| param_info_view(p),
            ).push(iv));
            assert(ps.take(k + 1).map_values(|p: ParamView| param_info(p)) =~= ps.take(k as int).map_values(
                |p: ParamView| param_info(p),
            ).push(param_info(ps[k as int])));
        }
        k += 1;
    }
    assert(ps.take(k as int) =~= ps);
    SignatureInformation { label: method.name.clone(), documentation: method.ret.display_string(), parameters }
}

fn get_args(call_chain: &Vec<CallItem>) -> (r: Option<&CallItem>)
    ensures
        match last_arg_list(chain_view(call_chain@)) {
            Some(a) => r matches Some(x) && x@ == a,
            None => r is None,
        },
{
    let ghost cv = chain_view(call_chain@);
    proof {
        lemma_chain_view_len(call_chain@);
    }
    let mut k = call_chain.len();
    assert(cv.take(k as int) =~= cv);
    while k > 0
        invariant
            k <= call_chain@.len(),
            cv == chain_view(call_chain@),
            cv.len() == call_chain@.len(),
            last_arg_list(cv) == last_arg_list(cv.take(k as int)),
        decreases k,
    {
        proof {
            lemma_chain_view_index(call_chain@, k - 1);
            assert(cv.take(k as int).drop_last() =~= cv.take(k - 1));
        }
        if let CallItem::ArgumentList { .. } = &call_chain[k - 1] {
            return Some(&call_chain[k - 1]);
        }
        k -= 1;
    }
    None
}

fn named_methods_exec<'a>(ms: &'a Vec<crate::dto::Method>, name: &str) -> (r: Vec<&'a crate::dto::Method>)
    ensures
        r@.map_values(|m: &crate::dto::Method| m@) == named_methods(methods_view(ms@), name@),
{
    let ghost all = methods_view(ms@);
    let mut out: Vec<&'a crate::dto::Method> = Vec::new();
    let mut k: usize = 0;
    assert(all.take(0) =~= Seq::<MethodView>::empty());
    assert(out@.map_values(|m: &crate::dto::Method| m@) =~= Seq::<MethodView>::empty());
    while k < ms.len()
        invariant
            k <= ms@.len(),
            all == methods_view(ms@),
            out@.map_values(|m: &crate::dto::Method| m@) == named_methods(all.take(k as int), name@),
        decreases ms.len() - k,
    {
        let ghost before = out@;
        assert(all.take(k + 1).drop_last() =~= all.take(k as int));
        assert(all.take(k + 1).last() == ms@[k as int]@);
        if str_eq(ms[k].name.as_str(), name) {
            out.push(&ms[k]);
            assert(out@.map_values(|m: &crate::dto::Method| m@) =~= before.map_values(|m: &crate::dto::Method| m@).push(
                ms@[k as int]@,
            ));
        } else {
            assert(named_methods(all.take(k as int), name@) + Seq::<MethodView>::empty() =~= named_methods(
                all.take(k as int),
                name@,
            ));
        }
        k += 1;
    }
    assert(all.take(k as int) =~= all);
    out
}

fn to_u32(n: usize) -> (r: Option<u32>)
    ensures
        r == as_u32(n as int),
{
    if n <= 0xffff_ffffusize {
        Some(n as u32)
    } else {
        None
    }
}

/// The signature help for `call_chain` (see `signature_of`).
pub fn get_signature(
    call_chain: Vec<CallItem>,
    imports: &[ImportUnit],
    vars: &[LocalVariable],
    class: &Class,
    class_map: &DashMap<String, Class>,
) -> (r: Result<SignatureHelp, SignatureError>)
    requires
        parents_end(class_map_contents(*class_map)),
    ensures
        help_result(r) == signature_of(
            class_map_contents(*class_map),
            imports_view(imports@),
            vars_view(vars@),
            class@,
            chain_view(call_chain@),
        ),
{
    let args = get_args(&call_chain);
    let (prev, active_param) = match args {
        Some(CallItem::ArgumentList { prev, range: _, active_param, filled_params: _ }) => (prev, *active_param),
        _ => return Err(SignatureError::NotAnArgumentList),
    };
    proof {
        lemma_chain_view_len(prev@);
    }
    if prev.len() == 0 {
        return Err(SignatureError::CouldNotGetMethod);
    }
    proof {
        lemma_chain_view_index(prev@, prev@.len() - 1);
    }
    let method_name = match &prev[prev.len() - 1] {
        CallItem::MethodCall { name, range: _ } => name,
        _ => return Err(SignatureError::CouldNotGetMethod),
    };
    let resolve_state = match resolve_call_chain(prev.as_slice(), vars, imports, class, class_map) {
        Ok(c) => c,
        Err(e) => return Err(SignatureError::Tyres(e)),
    };
    let methods = named_methods_exec(&resolve_state.class.methods, method_name.as_str());
    let ghost mv = methods@.map_values(|m: &crate::dto::Method| m@);
    let mut j: usize = 0;
    assert(mv.len() == methods@.len());
    while j < methods.len()
        invariant
            j <= methods@.len(),
            mv == methods@.map_values(|m: &crate::dto::Method| m@),
            first_fitting(mv, active_param as nat, 0) == first_fitting(mv, active_param as nat, j as int),
        ensures
            j <= methods@.len(),
            first_fitting(mv, active_param as nat, 0) == first_fitting(mv, active_param as nat, j as int),
            j < methods@.len() ==> mv[j as int].parameters.len() > active_param,
        decreases methods.len() - j,
    {
        assert(mv[j as int] == methods@[j as int]@);
        assert(mv[j as int].parameters.len() == methods@[j as int].parameters@.len());
        if methods[j].parameters.len() > active_param {
            break;
        }
        j += 1;
    }
    if j == methods.len() {
        return Err(SignatureError::CouldNoteGetActiveSignature);
    }
    assert(mv[j as int] == methods@[j as int]@);
    assert(mv[j as int].parameters.len() == methods@[j as int].parameters@.len());
    assert(first_fitting(mv, active_param as nat, j as int) == Some(j as int));
    let mut signatures: Vec<SignatureInformation> = Vec::new();
    let mut k: usize = 0;
    while k < methods.len()
        invariant
            k <= methods@.len(),
            mv == methods@.map_values(|m: &crate::dto::Method| m@),
            signatures@.map_values(|s: SignatureInformation| sig_info_view(s)) == mv.take(k as int).map_values(
                |x: MethodView| sig_info(x),
            ),
        decreases methods.len() - k,
    {
        let s = method_to_signature_information(methods[k]);
        let ghost before = signatures@;
        let ghost sv = sig_info_view(s);
        assert(mv[k as int] == methods@[k as int]@);
        signatures.push(s);
        proof {
            assert(signatures@ =~= before.push(s));
            assert(before.push(s).map_values(|s: SignatureInformation| sig_info_view(s)) =~= before.map_values(
                |s: SignatureInformation| sig_info_view(s),
            ).push(sv));
            assert(mv.take(k + 1).map_values(|x: MethodView| sig_info(x)) =~= mv.take(k as int).map_values(
                |x: MethodView| sig_info(x),
            ).push(sig_info(mv[k as int])));
        }
        k += 1;
    }
    assert(mv.take(k as int) =~= mv);
    Ok(SignatureHelp { signatures, active_signature: to_u32(j), active_parameter: to_u32(active_param) })
}

/// The signature help at `point` of `document`: the call chain before the
/// cursor, with the file's imports and the variables in view there (see
/// `get_signature`); no chain there gives an error.
pub fn signature_driver(document: &Document, point: &Point, class: &Class, class_map: &DashMap<String, Class>) -> (r:
    Result<SignatureHelp, SignatureError>)
    requires
        parents_end(class_map_contents(*class_map)),
        well_placed(nodes_view(document.tree@), encode_utf8(document.str_data@).len() as int),
        point.column >= 3 || !walk_meets_parens(
            nodes_view(document.tree@),
            encode_utf8(document.str_data@),
            0,
            0,
            *point,
        ),
    ensures
        ({
            let ns = nodes_view(document.tree@);
            let b = encode_utf8(document.str_data@);
            match spec_call_chain(ns, b, *point) {
                None => r matches Err(SignatureError::NoCallChain),
                Some(chain) => help_result(r) == signature_of(
                    class_map_contents(*class_map),
                    imported_classpaths(ns, b),
                    vars_from(ns, b, 0, 0, *point, seq![]),
                    class@,
                    chain,
                ),
            }
        }),
{
    match get_call_chain(&document.tree, document.as_bytes(), point) {
        Some(call_chain) => {
            let imports = imports(document);
            let vars = get_vars(document, point);
            get_signature(call_chain, &imports, &vars, class, class_map)
        },
        None => Err(SignatureError::NoCallChain),
    }
}

} // verus!
