//! Reading the type descriptors of a compiled class file and the class
//! names that a type mentions.
use vstd::prelude::*;

use crate::dto::{jtype_view, jtypes_view, JType, JTypeView};
use crate::text::{chars_of, push_char};

verus! {

/// `s` with every `/` written as `.`.
pub open spec fn slashes_to_dots(s: Seq<char>) -> Seq<char> {
    s.map_values(|c: char| if c == '/' { '.' } else { c })
}

/// The index of the first `;` at or after `i`, or the length.
pub open spec fn semicolon_at_or_after(s: Seq<char>, i: int) -> int
    decreases s.len() - i,
{
    if i < 0 || i >= s.len() {
        s.len() as int
    } else if s[i] == ';' {
        i
    } else {
        semicolon_at_or_after(s, i + 1)
    }
}

pub proof fn lemma_semicolon_at_or_after(s: Seq<char>, i: int)
    requires
        0 <= i <= s.len(),
    ensures
        i <= semicolon_at_or_after(s, i) <= s.len(),
        forall|k: int| i <= k < semicolon_at_or_after(s, i) ==> #[trigger] s[k] != ';',
        semicolon_at_or_after(s, i) < s.len() ==> s[semicolon_at_or_after(s, i)] == ';',
    decreases s.len() - i,
{
    if i < s.len() && s[i] != ';' {
        lemma_semicolon_at_or_after(s, i + 1);
    }
}

/// The type that the descriptor character `c` starts, the rest being read
/// from index `i` of `s`; and the index after what was read. `L...;` is a
/// class whose `/` become `.`, `[` an array of the type that follows, and
/// a missing or unknown character stands for `void`.
pub open spec fn field_type(s: Seq<char>, c: Option<char>, i: int) -> (JTypeView, int)
    decreases s.len() - i,
{
    match c {
        None => (JTypeView::Void, i),
        Some(c) => if c == 'B' {
            (JTypeView::Byte, i)
        } else if c == 'C' {
            (JTypeView::Char, i)
        } else if c == 'D' {
            (JTypeView::Double, i)
        } else if c == 'F' {
            (JTypeView::Float, i)
        } else if c == 'I' {
            (JTypeView::Int, i)
        } else if c == 'J' {
            (JTypeView::Long, i)
        } else if c == 'S' {
            (JTypeView::Short, i)
        } else if c == 'Z' {
            (JTypeView::Boolean, i)
        } else if c == 'V' {
            (JTypeView::Void, i)
        } else if c == 'L' {
            let e = semicolon_at_or_after(s, i);
            let next = if e < s.len() {
                e + 1
            } else {
                s.len() as int
            };
            (JTypeView::Class(slashes_to_dots(s.subrange(i, e))), next)
        } else if c == '[' {
            if 0 <= i < s.len() {
                let (inner, j) = field_type(s, Some(s[i]), i + 1);
                (JTypeView::Array(Box::new(inner)), j)
            } else {
                (JTypeView::Array(Box::new(JTypeView::Void)), i)
            }
        } else {
            (JTypeView::Void, i)
        },
    }
}

pub proof fn lemma_field_type_advances(s: Seq<char>, c: Option<char>, i: int)
    requires
        0 <= i <= s.len(),
    ensures
        i <= field_type(s, c, i).1 <= s.len(),
    decreases s.len() - i,
{
    if let Some(ch) = c {
        if ch == 'L' {
            lemma_semicolon_at_or_after(s, i);
        } else if ch == '[' && i < s.len() {
            lemma_field_type_advances(s, Some(s[i]), i + 1);
        }
    }
}

/// The parameter types of a method descriptor, read from index `i` up to
/// `)`, and the index after the `)` (or the end).
pub open spec fn params_from(s: Seq<char>, i: int) -> (Seq<JTypeView>, int)
    decreases s.len() - i,
{
    if i < 0 || i >= s.len() {
        (seq![], i)
    } else if s[i] == ')' {
        (seq![], i + 1)
    } else {
        proof {
            lemma_field_type_advances(s, Some(s[i]), i + 1);
        }
        let (t, j) = field_type(s, Some(s[i]), i + 1);
        let (rest, k) = params_from(s, j);
        (seq![t] + rest, k)
    }
}

/// The character at index `i`, if there is one.
pub open spec fn char_at(s: Seq<char>, i: int) -> Option<char> {
    if 0 <= i < s.len() {
        Some(s[i])
    } else {
        None
    }
}

/// The index after the character at `i`, if there is one.
pub open spec fn after(s: Seq<char>, i: int) -> int {
    if 0 <= i < s.len() {
        i + 1
    } else {
        i
    }
}

/// A method descriptor `(params)ret` gives its parameter types and return
/// type; a descriptor without `(` is read as the return type alone.
pub open spec fn method_descriptor(s: Seq<char>) -> (Seq<JTypeView>, JTypeView) {
    if s.len() == 0 {
        (seq![], JTypeView::Void)
    } else if s[0] == '(' {
        let (ps, j) = params_from(s, 1);
        (ps, field_type(s, char_at(s, j), after(s, j)).0)
    } else {
        (seq![], field_type(s, Some(s[0]), 1).0)
    }
}

fn char_at_exec(s: &Vec<char>, i: usize) -> (r: (Option<char>, usize))
    ensures
        r.0 == char_at(s@, i as int),
        r.1 == after(s@, i as int),
{
    if i < s.len() {
        (Some(s[i]), i + 1)
    } else {
        (None, i)
    }
}

/// Reads the type that descriptor character `c` starts; the rest is read
/// from index `i` of `s`.
pub fn parse_field_type(c: Option<char>, s: &Vec<char>, i: usize) -> (r: (JType, usize))
    requires
        i <= s.len(),
    ensures
        (r.0@, r.1 as int) == field_type(s@, c, i as int),
    decreases s.len() - i,
{
    let Some(c) = c else {
        return (JType::Void, i);
    };
    if c == 'B' {
        (JType::Byte, i)
    } else if c == 'C' {
        (JType::Char, i)
    } else if c == 'D' {
        (JType::Double, i)
    } else if c == 'F' {
        (JType::Float, i)
    } else if c == 'I' {
        (JType::Int, i)
    } else if c == 'J' {
        (JType::Long, i)
    } else if c == 'S' {
        (JType::Short, i)
    } else if c == 'Z' {
        (JType::Boolean, i)
    } else if c == 'V' {
        (JType::Void, i)
    } else if c == 'L' {
        let mut class_name = String::new();
        let mut k = i;
        proof {
            lemma_semicolon_at_or_after(s@, i as int);
        }
        let ghost e = semicolon_at_or_after(s@, i as int);
        assert(class_name@ =~= slashes_to_dots(s@.subrange(i as int, i as int)));
        while k < s.len() && s[k] != ';'
            invariant
                i <= k <= e <= s.len(),
                e == semicolon_at_or_after(s@, i as int),
                forall|j: int| i <= j < e ==> #[trigger] s@[j] != ';',
                e < s.len() ==> s@[e] == ';',
                class_name@ == slashes_to_dots(s@.subrange(i as int, k as int)),
            decreases s.len() - k,
        {
            let ch = s[k];
            push_char(&mut class_name, if ch == '/' { '.' } else { ch });
            k += 1;
            assert(class_name@ =~= slashes_to_dots(s@.subrange(i as int, k as int)));
        }
        assert(k == e);
        let next = if k < s.len() {
            k + 1
        } else {
            k
        };
        (JType::Class(class_name), next)
    } else if c == '[' {
        let (first, rest) = char_at_exec(s, i);
        if first.is_some() {
            let (inner, j) = parse_field_type(first, s, rest);
            let r = JType::Array(Box::new(inner));
            assert(r@ == JTypeView::Array(Box::new(inner@)));
            (r, j)
        } else {
            (JType::Array(Box::new(JType::Void)), i)
        }
    } else {
        (JType::Void, i)
    }
}

/// Reads a field descriptor such as `I` or `Ljava/lang/String;`.
pub fn parse_field_descriptor(descriptor: &str) -> (r: Option<JType>)
    ensures
        r matches Some(t) && t@ == field_type(descriptor@, char_at(descriptor@, 0), after(descriptor@, 0)).0,
{
    let s = chars_of(descriptor);
    let (current, next) = char_at_exec(&s, 0);
    Some(parse_field_type(current, &s, next).0)
}

/// Reads a method descriptor such as `(ILjava/lang/String;)V` into its
/// parameter types and return type.
pub fn parse_method_descriptor(descriptor: &str) -> (r: (Vec<JType>, JType))
    ensures
        (jtypes_view(r.0@), r.1@) == method_descriptor(descriptor@),
{
    let s = chars_of(descriptor);
    let mut param_types: Vec<JType> = Vec::new();
    if s.len() == 0 {
        assert(jtypes_view(param_types@) =~= Seq::<JTypeView>::empty());
        return (param_types, JType::Void);
    }
    if s[0] == '(' {
        let mut i: usize = 1;
        assert(jtypes_view(param_types@) =~= Seq::<JTypeView>::empty());
        assert(params_from(s@, 1) == (jtypes_view(param_types@) + params_from(s@, 1).0, params_from(s@, 1).1));
        while i < s.len() && s[i] != ')'
            invariant
                1 <= i <= s.len(),
                params_from(s@, 1) == (jtypes_view(param_types@) + params_from(s@, i as int).0, params_from(s@, i as int).1),
            decreases s.len() - i,
        {
            let c = s[i];
            proof {
                lemma_field_type_advances(s@, Some(c), i + 1);
            }
            let (t, j) = parse_field_type(Some(c), &s, i + 1);
            let ghost before = jtypes_view(param_types@);
            let ghost old_pt = param_types@;
            param_types.push(t);
            proof {
                assert(jtypes_view(param_types@) == before.push(t@)) by {
                    assert(param_types@.drop_last() =~= old_pt);
                }
                let rest = params_from(s@, j as int);
                assert(before + (seq![t@] + rest.0) =~= before.push(t@) + rest.0);
            }
            i = j;
        }
        let ghost done = params_from(s@, i as int);
        assert(done.0 =~= Seq::<JTypeView>::empty());
        assert(jtypes_view(param_types@) + done.0 =~= jtypes_view(param_types@));
        let j = if i < s.len() {
            i + 1
        } else {
            i
        };
        let (current, next) = char_at_exec(&s, j);
        let (return_type, _) = parse_field_type(current, &s, next);
        (param_types, return_type)
    } else {
        let (return_type, _) = parse_field_type(Some(s[0]), &s, 1);
        assert(jtypes_view(param_types@) =~= Seq::<JTypeView>::empty());
        (param_types, return_type)
    }
}

/// The class names that a type mentions: a class itself, the element type
/// of an array, the arguments (not the name) of a generic type.
pub open spec fn class_names(j: JTypeView) -> Seq<Seq<char>>
    decreases j,
{
    match j {
        JTypeView::Class(c) => seq![c],
        JTypeView::Array(i) => class_names(*i),
        JTypeView::Generic(_, args) => class_names_list(args),
        _ => seq![],
    }
}

pub open spec fn class_names_list(js: Seq<JTypeView>) -> Seq<Seq<char>>
    decreases js,
{
    if js.len() == 0 {
        seq![]
    } else {
        class_names_list(js.drop_last()) + class_names(js.last())
    }
}

fn collect_class_names_list(js: &Vec<JType>, out: &mut Vec<String>)
    ensures
        final(out)@.map_values(|s: String| s@) == old(out)@.map_values(|s: String| s@) + class_names_list(jtypes_view(js@)),
    decreases js@, 0nat,
{
    let ghost start = out@.map_values(|s: String| s@);
    let mut k: usize = 0;
    proof {
        crate::dto::lemma_jtypes_view_len(js@);
    }
    assert(jtypes_view(js@).take(0) =~= Seq::<JTypeView>::empty());
    assert(out@.map_values(|s: String| s@) =~= start + class_names_list(jtypes_view(js@).take(0)));
    while k < js.len()
        invariant
            k <= js.len(),
            jtypes_view(js@).len() == js@.len(),
            forall|i: int| 0 <= i < js@.len() ==> #[trigger] jtypes_view(js@)[i] == jtype_view(js@[i]),
            out@.map_values(|s: String| s@) == start + class_names_list(jtypes_view(js@).take(k as int)),
        decreases js.len() - k,
    {
        assert(decreases_to!(js@ => js@[k as int]));
        let ghost before = out@.map_values(|s: String| s@);
        collect_class_names(&js[k], out);
        proof {
            let t = jtypes_view(js@).take(k + 1);
            assert(t.drop_last() =~= jtypes_view(js@).take(k as int));
            assert(t.last() == jtype_view(js@[k as int]));
            assert(out@.map_values(|s: String| s@) =~= start + class_names_list(t));
        }
        k += 1;
    }
    assert(jtypes_view(js@).take(k as int) =~= jtypes_view(js@));
}

pub(crate) fn collect_class_names(j: &JType, out: &mut Vec<String>)
    ensures
        final(out)@.map_values(|s: String| s@) == old(out)@.map_values(|s: String| s@) + class_names(j@),
    decreases *j, 1nat,
{
    let ghost before = out@.map_values(|s: String| s@);
    match j {
        JType::Class(c) => {
            out.push(c.clone());
            assert(out@.map_values(|s: String| s@) =~= before + seq![c@]);
        },
        JType::Array(b) => collect_class_names(b, out),
        JType::Generic(_, args) => collect_class_names_list(args, out),
        _ => {
            assert(out@.map_values(|s: String| s@) =~= before + Seq::<Seq<char>>::empty());
        },
    }
}

/// The class names that a type mentions (see `class_names`).
pub fn jtype_class_names(i: JType) -> (r: Vec<String>)
    ensures
        r@.map_values(|s: String| s@) == class_names(i@),
{
    let mut out: Vec<String> = Vec::new();
    collect_class_names(&i, &mut out);
    assert(out@.map_values(|s: String| s@) =~= Seq::<Seq<char>>::empty() + class_names(i@));
    out
}

} // verus!
