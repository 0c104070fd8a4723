//! A class seen together with its parents: the methods and fields of its
//! super classes and super interfaces, found in a map of classes by class
//! path, are added to it.
use vstd::prelude::*;

use crate::dto::{copy_class, copy_field, copy_method, Class, ClassView, FieldView, MethodView, SuperClass, SuperView};
use dashmap::DashMap;

verus! {

#[verifier::external_type_specification]
#[verifier::external_body]
#[verifier::reject_recursive_types(K)]
#[verifier::reject_recursive_types(V)]
#[verifier::reject_recursive_types(S)]
pub struct ExDashMap<K, V, S>(DashMap<K, V, S>);

/// The classes that a map of classes holds, by class path. A `DashMap`
/// changes through a shared reference; what is stated over this holds only
/// while no other thread writes the map during a call that reads it.
pub uninterp spec fn class_map_contents(m: DashMap<String, Class>) -> Map<Seq<char>, ClassView>;

/// Calls `DashMap::get` with `key` and copies the class found, if any: the
/// class that the map holds under `key`.
#[verifier::external_body]
pub(crate) fn class_map_get(class_map: &DashMap<String, Class>, key: &str) -> (r: Option<Class>)
    ensures
        match lookup(class_map_contents(*class_map), key@) {
            Some(c) => r matches Some(x) && x@ == c,
            None => r is None,
        },
{
    class_map.get(key).map(|p| p.value().clone())
}

pub open spec fn lookup(m: Map<Seq<char>, ClassView>, key: Seq<char>) -> Option<ClassView> {
    if m.dom().contains(key) {
        Some(m[key])
    } else {
        None
    }
}

/// The class that a super class names: a bare name is looked up under
/// `java.util.`, a class path as it is.
pub open spec fn parent_of(m: Map<Seq<char>, ClassView>, s: SuperView) -> Option<ClassView> {
    match s {
        SuperView::Empty => None,
        SuperView::Name(n) => lookup(m, "java.util."@ + n),
        SuperView::ClassPath(p) => lookup(m, p),
    }
}

/// The chain of super classes above `s`, the topmost first, followed for
/// at most `fuel` steps.
pub open spec fn super_classes(m: Map<Seq<char>, ClassView>, s: SuperView, fuel: nat) -> Seq<ClassView>
    decreases fuel,
{
    match parent_of(m, s) {
        None => seq![],
        Some(p) => if fuel == 0 {
            seq![]
        } else {
            super_classes(m, p.super_class, (fuel - 1) as nat).push(p)
        },
    }
}

/// The chain of super classes above `s` ends within `fuel` steps.
pub open spec fn super_classes_end(m: Map<Seq<char>, ClassView>, s: SuperView, fuel: nat) -> bool
    decreases fuel,
{
    match parent_of(m, s) {
        None => true,
        Some(p) => fuel > 0 && super_classes_end(m, p.super_class, (fuel - 1) as nat),
    }
}

/// The super interfaces found for each of `ss` in turn, each after the
/// interfaces above it; at most `fuel` levels deep.
pub open spec fn interfaces_of_list(m: Map<Seq<char>, ClassView>, ss: Seq<SuperView>, fuel: nat) -> Seq<ClassView>
    decreases fuel, ss.len(),
{
    if ss.len() == 0 {
        seq![]
    } else {
        interfaces_of_list(m, ss.drop_last(), fuel) + interfaces_of_one(m, ss.last(), fuel)
    }
}

pub open spec fn interfaces_of_one(m: Map<Seq<char>, ClassView>, s: SuperView, fuel: nat) -> Seq<ClassView>
    decreases fuel, 0nat,
{
    match parent_of(m, s) {
        None => seq![],
        Some(p) => if fuel == 0 {
            seq![]
        } else {
            interfaces_of_list(m, p.super_interfaces, (fuel - 1) as nat).push(p)
        },
    }
}

/// Every chain of super interfaces from `ss` ends within `fuel` levels.
pub open spec fn interfaces_end_list(m: Map<Seq<char>, ClassView>, ss: Seq<SuperView>, fuel: nat) -> bool
    decreases fuel, ss.len(),
{
    if ss.len() == 0 {
        true
    } else {
        interfaces_end_list(m, ss.drop_last(), fuel) && interfaces_end_one(m, ss.last(), fuel)
    }
}

pub open spec fn interfaces_end_one(m: Map<Seq<char>, ClassView>, s: SuperView, fuel: nat) -> bool
    decreases fuel, 0nat,
{
    match parent_of(m, s) {
        None => true,
        Some(p) => fuel > 0 && interfaces_end_list(m, p.super_interfaces, (fuel - 1) as nat),
    }
}

/// A method or field without a source of its own comes from `source`.
pub open spec fn method_from(m: MethodView, source: Seq<char>) -> MethodView {
    if m.source is None {
        MethodView { source: Some(source), ..m }
    } else {
        m
    }
}

pub open spec fn field_from(f: FieldView, source: Seq<char>) -> FieldView {
    if f.source is None {
        FieldView { source: Some(source), ..f }
    } else {
        f
    }
}

/// `b` with the methods and fields of `c` added after its own, each
/// without a source taking `c`'s.
pub open spec fn overlay_view(b: ClassView, c: ClassView) -> ClassView {
    ClassView {
        methods: b.methods + c.methods.map_values(|m: MethodView| method_from(m, c.source)),
        fields: b.fields + c.fields.map_values(|f: FieldView| field_from(f, c.source)),
        ..b
    }
}

/// The last class of `s` with the others laid over it, from the last but
/// one to the first.
pub open spec fn stack_overlay(s: Seq<ClassView>) -> ClassView
    decreases s.len(),
{
    if s.len() <= 1 {
        s[0]
    } else {
        overlay_view(stack_overlay(s.drop_first()), s[0])
    }
}

/// The super classes of `c` and then its super interfaces, each chain
/// followed to its end.
pub open spec fn parents(m: Map<Seq<char>, ClassView>, c: ClassView) -> Seq<ClassView> {
    super_classes(m, c.super_class, choose|f: nat| super_classes_end(m, c.super_class, f)) + interfaces_of_list(
        m,
        c.super_interfaces,
        choose|f: nat| interfaces_end_list(m, c.super_interfaces, f),
    )
}

/// `c` laid over its parents (see `parents`), or `c` itself when it has
/// none.
pub open spec fn with_parents(m: Map<Seq<char>, ClassView>, c: ClassView) -> ClassView {
    let s = parents(m, c);
    if s.len() == 0 {
        c
    } else {
        overlay_view(stack_overlay(s), c)
    }
}

pub open spec fn classes_view(v: Seq<Class>) -> Seq<ClassView> {
    v.map_values(|c: Class| c@)
}


/// The class that `super_class` names in `class_map` (see `parent_of`).
fn load_parent(super_class: &SuperClass, class_map: &DashMap<String, Class>) -> (r: Option<Class>)
    ensures
        match parent_of(class_map_contents(*class_map), super_class@) {
            Some(c) => r matches Some(x) && x@ == c,
            None => r is None,
        },
{
    match super_class {
        SuperClass::Empty => None,
        SuperClass::Name(n) => {
            let mut key = "java.util.".to_string();
            key.append(n.as_str());
            class_map_get(class_map, key.as_str())
        },
        SuperClass::ClassPath(class_path) => class_map_get(class_map, class_path.as_str()),
    }
}

fn push_class(s: &mut Vec<Class>, c: Class)
    ensures
        classes_view(final(s)@) == classes_view(old(s)@).push(c@),
{
    let ghost before = s@;
    let ghost cv = c@;
    s.push(c);
    assert(classes_view(s@) =~= classes_view(before).push(cv));
}

fn populate_super_class(class: &Class, class_map: &DashMap<String, Class>, s: &mut Vec<Class>, Ghost(fuel): Ghost<nat>)
    requires
        super_classes_end(class_map_contents(*class_map), class.super_class@, fuel),
    ensures
        classes_view(final(s)@) == classes_view(old(s)@) + super_classes(
            class_map_contents(*class_map),
            class.super_class@,
            fuel,
        ),
    decreases fuel,
{
    let parent = load_parent(&class.super_class, class_map);
    if let Some(p) = parent {
        let ghost before = classes_view(s@);
        populate_super_class(&p, class_map, s, Ghost((fuel - 1) as nat));
        push_class(s, p);
        assert(classes_view(s@) =~= before + super_classes(class_map_contents(*class_map), class.super_class@, fuel));
    } else {
        assert(classes_view(s@) =~= classes_view(s@) + Seq::<ClassView>::empty());
    }
}

fn populate_list(
    supers: &Vec<SuperClass>,
    class_map: &DashMap<String, Class>,
    s: &mut Vec<Class>,
    Ghost(fuel): Ghost<nat>,
)
    requires
        interfaces_end_list(class_map_contents(*class_map), supers_view_of(supers@), fuel),
    ensures
        classes_view(final(s)@) == classes_view(old(s)@) + interfaces_of_list(
            class_map_contents(*class_map),
            supers_view_of(supers@),
            fuel,
        ),
    decreases fuel, supers@.len(),
{
    let ghost m = class_map_contents(*class_map);
    let ghost start = classes_view(s@);
    let mut k: usize = 0;
    assert(supers_view_of(supers@.take(0)) =~= Seq::<SuperView>::empty());
    while k < supers.len()
        invariant
            k <= supers@.len(),
            m == class_map_contents(*class_map),
            interfaces_end_list(m, supers_view_of(supers@), fuel),
            classes_view(s@) == start + interfaces_of_list(m, supers_view_of(supers@.take(k as int)), fuel),
        decreases supers@.len() - k,
    {
        let ghost all = supers_view_of(supers@);
        let ghost pre = supers_view_of(supers@.take(k as int));
        let ghost upto = supers_view_of(supers@.take(k + 1));
        assert(upto =~= pre.push(supers@[k as int]@));
        assert(upto.drop_last() =~= pre);
        proof {
            lemma_end_prefix(m, all, fuel, k + 1);
        }
        let ghost before = classes_view(s@);
        populate_one(&supers[k], class_map, s, Ghost(fuel));
        assert(classes_view(s@) =~= start + interfaces_of_list(m, upto, fuel));
        k += 1;
    }
    assert(supers@.take(k as int) =~= supers@);
}

fn populate_one(super_interface: &SuperClass, class_map: &DashMap<String, Class>, s: &mut Vec<Class>, Ghost(fuel): Ghost<nat>)
    requires
        interfaces_end_one(class_map_contents(*class_map), super_interface@, fuel),
    ensures
        classes_view(final(s)@) == classes_view(old(s)@) + interfaces_of_one(
            class_map_contents(*class_map),
            super_interface@,
            fuel,
        ),
    decreases fuel, 0nat,
{
    let parent = load_parent(super_interface, class_map);
    if let Some(p) = parent {
        let ghost before = classes_view(s@);
        assert(supers_view_of(p.super_interfaces@) == p@.super_interfaces);
        populate_list(&p.super_interfaces, class_map, s, Ghost((fuel - 1) as nat));
        push_class(s, p);
        assert(classes_view(s@) =~= before + interfaces_of_one(class_map_contents(*class_map), super_interface@, fuel));
    } else {
        assert(classes_view(s@) =~= classes_view(s@) + Seq::<ClassView>::empty());
    }
}

pub open spec fn supers_view_of(v: Seq<SuperClass>) -> Seq<SuperView> {
    v.map_values(|x: SuperClass| x@)
}

/// Where every chain from a list ends, every chain from each of its
/// prefixes and from its elements ends.
proof fn lemma_end_prefix(m: Map<Seq<char>, ClassView>, ss: Seq<SuperView>, fuel: nat, n: int)
    requires
        interfaces_end_list(m, ss, fuel),
        1 <= n <= ss.len(),
    ensures
        interfaces_end_list(m, ss.take(n - 1), fuel),
        interfaces_end_one(m, ss[n - 1], fuel),
    decreases ss.len() - n,
{
    if n == ss.len() {
        assert(ss.drop_last() =~= ss.take(n - 1));
    } else {
        lemma_end_prefix(m, ss, fuel, n + 1);
        let t = ss.take(n);
        assert(ss.take(n + 1 - 1) =~= t);
        assert(t.drop_last() =~= ss.take(n - 1));
        assert(t.last() == ss[n - 1]);
    }
}

fn populate_super_interfaces(class: &Class, class_map: &DashMap<String, Class>, s: &mut Vec<Class>, Ghost(fuel): Ghost<nat>)
    requires
        interfaces_end_list(class_map_contents(*class_map), class@.super_interfaces, fuel),
    ensures
        classes_view(final(s)@) == classes_view(old(s)@) + interfaces_of_list(
            class_map_contents(*class_map),
            class@.super_interfaces,
            fuel,
        ),
{
    assert(supers_view_of(class.super_interfaces@) == class@.super_interfaces);
    populate_list(&class.super_interfaces, class_map, s, Ghost(fuel));
}

/// `b` with the methods and fields of `c` added (see `overlay_view`).
fn overlay_class(b: Class, c: &Class) -> (r: Class)
    ensures
        r@ == overlay_view(b@, c@),
{
    let mut out = b;
    let ghost head_m = out@.methods;
    let ghost src = c.source@;
    let mut k: usize = 0;
    while k < c.methods.len()
        invariant
            k <= c.methods@.len(),
            src == c.source@,
            out@ == (ClassView {
                methods: head_m + c@.methods.take(k as int).map_values(|m: MethodView| method_from(m, src)),
                ..b@
            }),
        decreases c.methods@.len() - k,
    {
        let mut m = copy_method(&c.methods[k]);
        if m.source.is_none() {
            m.source = Some(c.source.clone());
        }
        let ghost before = out@;
        let ghost mv = m@;
        out.methods.push(m);
        proof {
            assert(mv == method_from(c@.methods[k as int], src));
            assert(c@.methods.take(k + 1).map_values(|m: MethodView| method_from(m, src)) =~= c@.methods.take(
                k as int,
            ).map_values(|m: MethodView| method_from(m, src)).push(mv));
            assert(crate::dto::methods_view(out.methods@) =~= before.methods.push(mv));
        }
        k += 1;
    }
    assert(c@.methods.take(k as int) =~= c@.methods);
    let ghost mid = out@;
    let ghost head_f = out@.fields;
    let mut k: usize = 0;
    while k < c.fields.len()
        invariant
            k <= c.fields@.len(),
            src == c.source@,
            out@ == (ClassView {
                fields: head_f + c@.fields.take(k as int).map_values(|f: FieldView| field_from(f, src)),
                ..mid
            }),
        decreases c.fields@.len() - k,
    {
        let mut f = copy_field(&c.fields[k]);
        if f.source.is_none() {
            f.source = Some(c.source.clone());
        }
        let ghost before = out@;
        let ghost fv = f@;
        out.fields.push(f);
        proof {
            assert(fv == field_from(c@.fields[k as int], src));
            assert(c@.fields.take(k + 1).map_values(|f: FieldView| field_from(f, src)) =~= c@.fields.take(
                k as int,
            ).map_values(|f: FieldView| field_from(f, src)).push(fv));
            assert(crate::dto::fields_view(out.fields@) =~= before.fields.push(fv));
        }
        k += 1;
    }
    assert(c@.fields.take(k as int) =~= c@.fields);
    out
}

/// `class` laid over its super classes and super interfaces from
/// `class_map` (see `with_parents`). Each chain of parents has to end: a
/// class that is its own ancestor has no such view.
pub fn inclued_parent(class: Class, class_map: &DashMap<String, Class>) -> (r: Class)
    requires
        exists|f: nat| super_classes_end(class_map_contents(*class_map), class@.super_class, f),
        exists|f: nat| interfaces_end_list(class_map_contents(*class_map), class@.super_interfaces, f),
    ensures
        r@ == with_parents(class_map_contents(*class_map), class@),
{
    let ghost m = class_map_contents(*class_map);
    let ghost f1 = choose|f: nat| super_classes_end(m, class@.super_class, f);
    let ghost f2 = choose|f: nat| interfaces_end_list(m, class@.super_interfaces, f);
    let mut s: Vec<Class> = Vec::new();
    assert(classes_view(s@) =~= Seq::<ClassView>::empty());
    populate_super_class(&class, class_map, &mut s, Ghost(f1));
    populate_super_interfaces(&class, class_map, &mut s, Ghost(f2));
    let ghost sv = classes_view(s@);
    assert(sv =~= parents(m, class@));
    if s.len() == 0 {
        return class;
    }
    let mut base: Option<Class> = None;
    let mut k = s.len();
    while k > 0
        invariant
            k <= s@.len(),
            s@.len() > 0,
            sv == classes_view(s@),
            match base {
                None => k == s@.len(),
                Some(b) => k < s@.len() && b@ == stack_overlay(sv.subrange(k as int, sv.len() as int)),
            },
        decreases k,
    {
        k -= 1;
        let ghost tail = sv.subrange(k as int, sv.len() as int);
        assert(tail.drop_first() =~= sv.subrange(k + 1, sv.len() as int));
        assert(tail[0] == s@[k as int]@);
        match base {
            Some(b) => {
                base = Some(overlay_class(b, &s[k]));
            },
            None => {
                assert(tail.len() == 1);
                base = Some(copy_class(&s[k]));
            },
        }
    }
    assert(sv.subrange(0, sv.len() as int) =~= sv);
    match base {
        Some(b) => overlay_class(b, &class),
        None => class,
    }
}


pub(crate) fn super_chain_ends(s: &SuperClass, class_map: &DashMap<String, Class>, fuel: usize) -> (b: bool)
    ensures
        b == super_classes_end(class_map_contents(*class_map), s@, fuel as nat),
    decreases fuel,
{
    match load_parent(s, class_map) {
        None => true,
        Some(p) => fuel > 0 && super_chain_ends(&p.super_class, class_map, fuel - 1),
    }
}

pub(crate) fn interfaces_list_end(supers: &Vec<SuperClass>, class_map: &DashMap<String, Class>, fuel: usize) -> (b: bool)
    ensures
        b == interfaces_end_list(class_map_contents(*class_map), supers_view_of(supers@), fuel as nat),
    decreases fuel, supers@.len(),
{
    let ghost m = class_map_contents(*class_map);
    let mut k: usize = 0;
    assert(supers_view_of(supers@.take(0)) =~= Seq::<SuperView>::empty());
    while k < supers.len()
        invariant
            k <= supers@.len(),
            m == class_map_contents(*class_map),
            interfaces_end_list(m, supers_view_of(supers@.take(k as int)), fuel as nat),
        decreases supers@.len() - k,
    {
        let ghost pre = supers_view_of(supers@.take(k as int));
        let ghost upto = supers_view_of(supers@.take(k + 1));
        assert(upto =~= pre.push(supers@[k as int]@));
        assert(upto.drop_last() =~= pre);
        if !interfaces_one_end(&supers[k], class_map, fuel) {
            proof {
                lemma_end_prefix_rest(m, supers_view_of(supers@), fuel as nat, k + 1);
            }
            return false;
        }
        k += 1;
    }
    assert(supers@.take(k as int) =~= supers@);
    true
}

fn interfaces_one_end(s: &SuperClass, class_map: &DashMap<String, Class>, fuel: usize) -> (b: bool)
    ensures
        b == interfaces_end_one(class_map_contents(*class_map), s@, fuel as nat),
    decreases fuel, 0nat,
{
    match load_parent(s, class_map) {
        None => true,
        Some(p) => {
            assert(supers_view_of(p.super_interfaces@) == p@.super_interfaces);
            fuel > 0 && interfaces_list_end(&p.super_interfaces, class_map, fuel - 1)
        },
    }
}

/// Where the chains from some element of a list do not all end, those from
/// the whole list do not either.
proof fn lemma_end_prefix_rest(m: Map<Seq<char>, ClassView>, ss: Seq<SuperView>, fuel: nat, n: int)
    requires
        1 <= n <= ss.len(),
        !interfaces_end_one(m, ss[n - 1], fuel),
    ensures
        !interfaces_end_list(m, ss, fuel),
{
    if interfaces_end_list(m, ss, fuel) {
        lemma_end_prefix(m, ss, fuel, n);
    }
}

/// `inclued_parent` where every chain of parents of `class` ends within
/// `depth` steps; nothing where one does not.
pub fn inclued_parent_within(class: Class, class_map: &DashMap<String, Class>, depth: usize) -> (r: Option<Class>)
    ensures
        ({
            let m = class_map_contents(*class_map);
            if super_classes_end(m, class@.super_class, depth as nat) && interfaces_end_list(
                m,
                class@.super_interfaces,
                depth as nat,
            ) {
                r matches Some(x) && x@ == with_parents(m, class@)
            } else {
                r is None
            }
        }),
{
    let ghost m = class_map_contents(*class_map);
    assert(supers_view_of(class.super_interfaces@) == class@.super_interfaces);
    if super_chain_ends(&class.super_class, class_map, depth) && interfaces_list_end(
        &class.super_interfaces,
        class_map,
        depth,
    ) {
        assert(super_classes_end(m, class@.super_class, depth as nat));
        assert(interfaces_end_list(m, class@.super_interfaces, depth as nat));
        Some(inclued_parent(class, class_map))
    } else {
        None
    }
}


/// The class's own methods and fields close the view of it with its
/// parents, in their order, each without a source taking the class's; a
/// class without parents in the map is its own view.
pub proof fn lemma_own_members_last(m: Map<Seq<char>, ClassView>, c: ClassView)
    ensures
        parents(m, c).len() == 0 ==> with_parents(m, c) == c,
        parents(m, c).len() > 0 ==> {
            let r = with_parents(m, c);
            &&& r.methods.len() >= c.methods.len()
            &&& r.fields.len() >= c.fields.len()
            &&& forall|i: int|
                0 <= i < c.methods.len() ==> r.methods[r.methods.len() - c.methods.len() + i] == method_from(
                    #[trigger] c.methods[i],
                    c.source,
                )
            &&& forall|i: int|
                0 <= i < c.fields.len() ==> r.fields[r.fields.len() - c.fields.len() + i] == field_from(
                    #[trigger] c.fields[i],
                    c.source,
                )
        },
{
}

} // verus!
