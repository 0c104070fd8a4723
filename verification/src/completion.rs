//! The snippet that completing a method inserts: its name and a numbered
//! placeholder for each parameter.
use vstd::prelude::*;

use crate::dto::{display, ImportUnit, ImportView, JType, JTypeView, Method, Parameter};
use crate::text::push_char;
use crate::variable::{vars_view, LocalVariable, VarView};

verus! {

/// A snippet, and the import that it needs where it needs one.
#[derive(PartialEq, Debug)]
pub enum Snippet {
    Simple(String),
    Import { snippet: String, import: ImportUnit },
}

pub enum SnippetView {
    Simple(Seq<char>),
    Import { snippet: Seq<char>, import: ImportView },
}

impl View for Snippet {
    type V = SnippetView;

    open spec fn view(&self) -> SnippetView {
        match self {
            Snippet::Simple(s) => SnippetView::Simple(s@),
            Snippet::Import { snippet, import } => SnippetView::Import { snippet: snippet@, import: import@ },
        }
    }
}

pub open spec fn digit_char(d: nat) -> char {
    if d == 0 {
        '0'
    } else if d == 1 {
        '1'
    } else if d == 2 {
        '2'
    } else if d == 3 {
        '3'
    } else if d == 4 {
        '4'
    } else if d == 5 {
        '5'
    } else if d == 6 {
        '6'
    } else if d == 7 {
        '7'
    } else if d == 8 {
        '8'
    } else {
        '9'
    }
}

/// `n` written in decimal digits.
pub open spec fn decimal(n: nat) -> Seq<char>
    decreases n,
{
    if n < 10 {
        seq![digit_char(n)]
    } else {
        decimal(n / 10).push(digit_char(n % 10))
    }
}

fn digit_exec(d: usize) -> (c: char)
    requires
        d < 10,
    ensures
        c == digit_char(d as nat),
{
    match d {
        0 => '0',
        1 => '1',
        2 => '2',
        3 => '3',
        4 => '4',
        5 => '5',
        6 => '6',
        7 => '7',
        8 => '8',
        _ => '9',
    }
}

/// `n` in decimal digits (see `decimal`).
pub fn decimal_string(n: usize) -> (r: String)
    ensures
        r@ == decimal(n as nat),
    decreases n,
{
    if n < 10 {
        let mut s = String::new();
        push_char(&mut s, digit_exec(n));
        assert(s@ =~= seq![digit_char(n as nat)]);
        s
    } else {
        let mut s = decimal_string(n / 10);
        push_char(&mut s, digit_exec(n % 10));
        s
    }
}

pub open spec fn is_collector(j: JTypeView) -> bool {
    j == JTypeView::Class("java.util.stream.Collector"@)
}

/// What stands for a parameter of type `j`: a collector is
/// `Collectors.toList()`, a function, consumer, predicate, bi-function or
/// bi-consumer a lambda, and any other type is written as it is shown.
pub open spec fn snippet_type(j: JTypeView) -> Seq<char> {
    match j {
        JTypeView::Class(c) => if c == "java.util.stream.Collector"@ {
            "Collectors.toList()"@
        } else if c == "java.util.function.Function"@ || c == "java.util.function.Consumer"@ {
            "i -> i"@
        } else if c == "java.util.function.Predicate"@ {
            "i -> true"@
        } else if c == "java.util.function.BiFunction"@ {
            "(a, b) -> i"@
        } else if c == "java.util.function.BiComsumer"@ {
            "(i, consumer) -> i"@
        } else {
            display(j)
        },
        _ => display(j),
    }
}

/// The text that stands for parameter `p`, and whether it needs
/// `Collectors` imported; `import` is left as it is otherwise.
pub fn type_to_snippet(import: &mut Option<ImportUnit>, p: &Parameter) -> (r: String)
    ensures
        r@ == snippet_type(p.jtype@),
        is_collector(p.jtype@) ==> (*final(import) matches Some(i) && i@ == ImportView::Class("java.util.stream.Collectors"@)),
        !is_collector(p.jtype@) ==> *final(import) == *old(import),
{
    match &p.jtype {
        JType::Class(c) => {
            let s = c.as_str();
            if crate::text::str_eq(s, "java.util.stream.Collector") {
                *import = Some(ImportUnit::Class("java.util.stream.Collectors".to_string()));
                "Collectors.toList()".to_string()
            } else if crate::text::str_eq(s, "java.util.function.Function") || crate::text::str_eq(s, "java.util.function.Consumer") {
                "i -> i".to_string()
            } else if crate::text::str_eq(s, "java.util.function.Predicate") {
                "i -> true".to_string()
            } else if crate::text::str_eq(s, "java.util.function.BiFunction") {
                "(a, b) -> i".to_string()
            } else if crate::text::str_eq(s, "java.util.function.BiComsumer") {
                "(i, consumer) -> i".to_string()
            } else {
                p.jtype.display_string()
            }
        },
        _ => p.jtype.display_string(),
    }
}


/// The placeholder for the `k`-th parameter, counted from one.
pub open spec fn snippet_item(k: nat, p: Parameter) -> Seq<char> {
    "${"@ + decimal(k) + ":"@ + snippet_type(p.jtype@) + "}"@
}

/// The placeholders of `ps`, with `, ` between them.
pub open spec fn snippet_params(ps: Seq<Parameter>) -> Seq<char>
    decreases ps.len(),
{
    if ps.len() == 0 {
        seq![]
    } else if ps.len() == 1 {
        snippet_item(1, ps[0])
    } else {
        snippet_params(ps.drop_last()) + ", "@ + snippet_item(ps.len(), ps.last())
    }
}

pub open spec fn needs_collectors(ps: Seq<Parameter>) -> bool {
    exists|i: int| 0 <= i < ps.len() && is_collector(#[trigger] ps[i].jtype@)
}

/// The method's name and its placeholders in brackets; where a parameter
/// is a collector, `java.util.stream.Collectors` is to be imported.
pub open spec fn spec_method_snippet(m: Method) -> SnippetView {
    let s = m.name@ + "("@ + snippet_params(m.parameters@) + ")"@;
    if needs_collectors(m.parameters@) {
        SnippetView::Import { snippet: s, import: ImportView::Class("java.util.stream.Collectors"@) }
    } else {
        SnippetView::Simple(s)
    }
}

/// The snippet that completing `m` inserts (see `spec_method_snippet`).
pub fn method_snippet(m: &Method) -> (r: Snippet)
    ensures
        r@ == spec_method_snippet(*m),
{
    let mut import: Option<ImportUnit> = None;
    let mut params = String::new();
    let n = m.parameters.len();
    let mut k: usize = 0;
    assert(m.parameters@.take(0) =~= Seq::<Parameter>::empty());
    while k < n
        invariant
            k <= n == m.parameters@.len(),
            params@ == snippet_params(m.parameters@.take(k as int)),
            import matches Some(i) ==> i@ == ImportView::Class("java.util.stream.Collectors"@),
            import is Some <==> needs_collectors(m.parameters@.take(k as int)),
        decreases n - k,
    {
        let ghost before = params@;
        let ghost had = import is Some;
        let t = type_to_snippet(&mut import, &m.parameters[k]);
        if k > 0 {
            params.append(", ");
        }
        let num = decimal_string(k + 1);
        params.append("${");
        params.append(num.as_str());
        params.append(":");
        params.append(t.as_str());
        params.append("}");
        proof {
            let tk = m.parameters@.take(k + 1);
            assert(tk.drop_last() =~= m.parameters@.take(k as int));
            assert(tk.last() == m.parameters@[k as int]);
            if k == 0 {
                assert(params@ =~= snippet_item(1, m.parameters@[0]));
            } else {
                assert(params@ =~= before + ", "@ + snippet_item((k + 1) as nat, m.parameters@[k as int]));
            }
            assert(params@ == snippet_params(tk));
            if is_collector(m.parameters@[k as int].jtype@) {
                assert(is_collector(tk[k as int].jtype@));
            }
            if needs_collectors(tk) {
                let i = choose|i: int| 0 <= i < tk.len() && is_collector(#[trigger] tk[i].jtype@);
                if i < k {
                    assert(m.parameters@.take(k as int)[i] == tk[i]);
                }
            }
            if had {
                let i = choose|i: int| 0 <= i < k && is_collector(#[trigger] m.parameters@.take(k as int)[i].jtype@);
                assert(tk[i] == m.parameters@.take(k as int)[i]);
            }
        }
        k += 1;
    }
    assert(m.parameters@.take(k as int) =~= m.parameters@);
    let mut snippet = String::new();
    snippet.append(m.name.as_str());
    snippet.append("(");
    snippet.append(params.as_str());
    snippet.append(")");
    assert(snippet@ =~= m.name@ + "("@ + snippet_params(m.parameters@) + ")"@);
    match import {
        Some(import) => Snippet::Import { snippet, import },
        None => Snippet::Simple(snippet),
    }
}

/// What a completion offers: a function or a variable.
#[derive(Debug, PartialEq, Eq, Clone, Copy, Structural)]
pub enum CompletionItemKind {
    Function,
    Variable,
}

/// A completion: its label, the type shown beside it, and its kind.
#[derive(Debug, PartialEq)]
pub struct CompletionItem {
    pub label: String,
    pub detail: String,
    pub kind: CompletionItemKind,
}

pub struct CompletionView {
    pub label: Seq<char>,
    pub detail: Seq<char>,
    pub kind: CompletionItemKind,
}

pub open spec fn completion_view(c: CompletionItem) -> CompletionView {
    CompletionView { label: c.label@, detail: c.detail@, kind: c.kind }
}

/// A variable offered by its name, with its type beside it, as a function
/// where it is a method.
pub open spec fn var_completion(v: VarView) -> CompletionView {
    CompletionView {
        label: v.name,
        detail: display(v.jtype),
        kind: if v.is_fun {
            CompletionItemKind::Function
        } else {
            CompletionItemKind::Variable
        },
    }
}

/// The variables as completions, in order (see `var_completion`).
pub fn complete_vars(vars: &[LocalVariable]) -> (r: Vec<CompletionItem>)
    ensures
        r@.map_values(|c: CompletionItem| completion_view(c)) == vars_view(vars@).map_values(
            |v: VarView| var_completion(v),
        ),
{
    let mut out: Vec<CompletionItem> = Vec::new();
    let mut k: usize = 0;
    while k < vars.len()
        invariant
            k <= vars@.len(),
            out@.map_values(|c: CompletionItem| completion_view(c)) == vars_view(vars@).take(k as int).map_values(
                |v: VarView| var_completion(v),
            ),
        decreases vars.len() - k,
    {
        let a = &vars[k];
        let item = CompletionItem {
            label: a.name.clone(),
            detail: a.jtype.display_string(),
            kind: if a.is_fun {
                CompletionItemKind::Function
            } else {
                CompletionItemKind::Variable
            },
        };
        let ghost before = out@;
        let ghost cv = completion_view(item);
        assert(cv == var_completion(vars_view(vars@)[k as int]));
        out.push(item);
        proof {
            assert(out@ =~= before.push(item));
            assert(before.push(item).map_values(|c: CompletionItem| completion_view(c)) =~= before.map_values(
                |c: CompletionItem| completion_view(c),
            ).push(cv));
            assert(vars_view(vars@).take(k + 1).map_values(|v: VarView| var_completion(v)) =~= vars_view(vars@).take(
                k as int,
            ).map_values(|v: VarView| var_completion(v)).push(var_completion(vars_view(vars@)[k as int])));
        }
        k += 1;
    }
    assert(vars_view(vars@).take(k as int) =~= vars_view(vars@));
    out
}

} // verus!
