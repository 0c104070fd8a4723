//! The reference map: for each class path, the classes that use it, as
//! their imports show.
use vstd::prelude::*;

use crate::dto::{spec_class_name, Class, ClassView, ImportUnit, ImportView, imports_view};
use crate::text::{chars_of, rfind_exec, rsplit_once, string_of, str_eq, lemma_rfind_from_bounds};
use crate::tyres::parent::{class_map_contents, class_map_get};
use crate::tyres::class_map_keys;
use dashmap::DashMap;

verus! {

/// A class that uses another: by importing it, or by importing it
/// statically.
#[derive(Debug, PartialEq, Clone)]
pub enum ReferenceUnit {
    Class(String),
    StaticClass(String),
}

pub enum RefView {
    Class(Seq<char>),
    StaticClass(Seq<char>),
}

impl View for ReferenceUnit {
    type V = RefView;

    open spec fn view(&self) -> RefView {
        match self {
            ReferenceUnit::Class(c) => RefView::Class(c@),
            ReferenceUnit::StaticClass(c) => RefView::StaticClass(c@),
        }
    }
}

pub open spec fn refs_view(v: Seq<ReferenceUnit>) -> Seq<RefView> {
    v.map_values(|r: ReferenceUnit| r@)
}

/// The uses that a reference map holds, by the class path used. A
/// `DashMap` changes through a shared reference; what is stated over this
/// holds only while no other thread writes the map during a call.
pub uninterp spec fn reference_map_contents(m: DashMap<String, Vec<ReferenceUnit>>) -> Map<Seq<char>, Seq<RefView>>;

/// Calls `DashMap::get` with `key` and copies the uses found, if any: those
/// that the map holds under `key`.
#[verifier::external_body]
fn reference_map_get(m: &DashMap<String, Vec<ReferenceUnit>>, key: &str) -> (r: Option<Vec<ReferenceUnit>>)
    ensures
        r matches Some(x) ==> reference_map_contents(*m).dom().contains(key@) && refs_view(x@)
            == reference_map_contents(*m)[key@],
        r is None ==> !reference_map_contents(*m).dom().contains(key@),
{
    m.get(key).map(|v| v.value().clone())
}

/// Calls `DashMap::insert`: afterwards the map holds `value` under `key`
/// and is otherwise unchanged.
#[verifier::external_body]
fn reference_map_insert(m: &mut DashMap<String, Vec<ReferenceUnit>>, key: String, value: Vec<ReferenceUnit>)
    ensures
        reference_map_contents(*final(m)) == reference_map_contents(*old(m)).insert(key@, refs_view(value@)),
{
    m.insert(key, value);
}

/// `m` with `r` added to the uses of `key`: after those it holds, or as
/// the only one where it holds none.
pub open spec fn add_reference(m: Map<Seq<char>, Seq<RefView>>, key: Seq<char>, r: RefView) -> Map<
    Seq<char>,
    Seq<RefView>,
> {
    if m.dom().contains(key) {
        m.insert(key, m[key].push(r))
    } else {
        m.insert(key, seq![r])
    }
}

/// Adds `insert` to the uses of `key`, after those that the map holds, or
/// as its uses where it holds none.
pub fn insert_or_extend(out: &mut DashMap<String, Vec<ReferenceUnit>>, key: &String, insert: Vec<ReferenceUnit>)
    ensures
        reference_map_contents(*final(out)) == if reference_map_contents(*old(out)).dom().contains(key@) {
            reference_map_contents(*old(out)).insert(key@, reference_map_contents(*old(out))[key@] + refs_view(insert@))
        } else {
            reference_map_contents(*old(out)).insert(key@, refs_view(insert@))
        },
{
    match reference_map_get(out, key.as_str()) {
        Some(mut a) => {
            let ghost before = a@;
            let ghost added = insert@;
            let mut insert = insert;
            a.append(&mut insert);
            assert(refs_view(a@) =~= refs_view(before) + refs_view(added));
            reference_map_insert(out, key.clone(), a);
        },
        None => {
            reference_map_insert(out, key.clone(), insert);
        },
    }
}

/// Whether `imports` import, as a class, a class path whose class name is
/// `name`.
pub open spec fn imports_class_named(imports: Seq<ImportView>, name: Seq<char>) -> bool {
    exists|i: int|
        0 <= i < imports.len() && (#[trigger] imports[i] matches ImportView::Class(lp) && spec_class_name(lp) == Some(name))
}

fn imports_class_named_exec(imports: &Vec<ImportUnit>, name: &str) -> (b: bool)
    ensures
        b == imports_class_named(imports_view(imports@), name@),
{
    let ghost iv = imports_view(imports@);
    let mut k: usize = 0;
    while k < imports.len()
        invariant
            k <= imports.len(),
            iv == imports_view(imports@),
            forall|i: int|
                0 <= i < k ==> !(#[trigger] iv[i] matches ImportView::Class(lp) && spec_class_name(lp) == Some(name@)),
        decreases imports.len() - k,
    {
        assert(iv[k as int] == imports@[k as int]@);
        match &imports[k] {
            ImportUnit::Class(lp) => {
                if ImportUnit::class_path_match_class_name(lp.as_str(), name) {
                    assert(iv[k as int] matches ImportView::Class(x) && spec_class_name(x) == Some(name@));
                    return true;
                }
            },
            _ => {},
        }
        k += 1;
    }
    false
}

/// The package of a class path: what stands before its last `.`.
pub open spec fn package_of(class_path: Seq<char>) -> Option<Seq<char>> {
    match rsplit_once(class_path, seq!['.']) {
        Some((p, _)) => Some(p),
        None => None,
    }
}

fn package_of_exec(class_path: &str) -> (r: Option<String>)
    ensures
        r matches Some(x) ==> package_of(class_path@) == Some(x@),
        r is None ==> package_of(class_path@) is None,
{
    let v = chars_of(class_path);
    let dot = chars_of(".");
    proof {
        reveal_strlit(".");
        assert(dot@ =~= seq!['.']);
        lemma_rfind_from_bounds(v@, dot@, v@.len() - dot@.len());
    }
    match rfind_exec(&v, &dot) {
        Some(i) => Some(string_of(&v, 0, i)),
        None => None,
    }
}

/// Whether the class under `k` in `classes` lies in `package` and imports a
/// class named `name`: where `name` is a class of that package, such a
/// class uses it.
pub open spec fn implicit_import(classes: Map<Seq<char>, ClassView>, k: Seq<char>, package: Seq<char>, name: Seq<char>) -> bool {
    &&& classes.dom().contains(k)
    &&& package_of(k) == Some(package)
    &&& imports_class_named(classes[k].imports, name)
}

/// The class paths of `class_map` that use `class` from `package` (see
/// `implicit_import`), each once, in the order of the map.
pub fn get_implicit_imports(class_map: &DashMap<String, Class>, class: &Class, package: &String) -> (r: Vec<String>)
    ensures
        forall|i: int| 0 <= i < r@.len() ==> implicit_import(class_map_contents(*class_map), #[trigger] r@[i]@, package@, class.name@),
        forall|k: Seq<char>|
            implicit_import(class_map_contents(*class_map), k, package@, class.name@) ==> exists|i: int|
                0 <= i < r@.len() && #[trigger] r@[i]@ == k,
        forall|i: int, j: int| 0 <= i < j < r@.len() ==> r@[i]@ != r@[j]@,
{
    let ghost m = class_map_contents(*class_map);
    let keys = class_map_keys(class_map);
    let mut out: Vec<String> = Vec::new();
    let mut k: usize = 0;
    while k < keys.len()
        invariant
            k <= keys@.len(),
            m == class_map_contents(*class_map),
            forall|i: int| 0 <= i < keys@.len() ==> m.dom().contains(#[trigger] keys@[i]@),
            forall|key: Seq<char>| #[trigger] m.dom().contains(key) ==> exists|i: int| 0 <= i < keys@.len() && keys@[i]@ == key,
            forall|i: int, j: int| 0 <= i < j < keys@.len() ==> keys@[i]@ != keys@[j]@,
            forall|i: int| 0 <= i < out@.len() ==> implicit_import(m, #[trigger] out@[i]@, package@, class.name@),
            forall|i: int| 0 <= i < out@.len() ==> exists|j: int| 0 <= j < k && keys@[j]@ == #[trigger] out@[i]@,
            forall|j: int|
                0 <= j < k && implicit_import(m, #[trigger] keys@[j]@, package@, class.name@) ==> exists|i: int|
                    0 <= i < out@.len() && out@[i]@ == keys@[j]@,
            forall|i: int, j: int| 0 <= i < j < out@.len() ==> out@[i]@ != out@[j]@,
        decreases keys.len() - k,
    {
        let key = &keys[k];
        assert(m.dom().contains(key@));
        let mut found = false;
        match package_of_exec(key.as_str()) {
            Some(p) => {
                if str_eq(p.as_str(), package.as_str()) {
                    match class_map_get(class_map, key.as_str()) {
                        Some(c) => {
                            if imports_class_named_exec(&c.imports, class.name.as_str()) {
                                found = true;
                            }
                        },
                        None => {},
                    }
                }
            },
            None => {},
        }
        assert(found == implicit_import(m, key@, package@, class.name@));
        let ghost out_before = out@;
        if found {
            let ghost before = out@;
            assert forall|i: int| 0 <= i < before.len() implies before[i]@ != key@ by {
                let j = choose|j: int| 0 <= j < k && keys@[j]@ == before[i]@;
            }
            out.push(key.clone());
            assert(out@[before.len() as int]@ == keys@[k as int]@);
        }
        assert forall|j: int|
            0 <= j < k + 1 && implicit_import(m, #[trigger] keys@[j]@, package@, class.name@) implies exists|i: int|
                0 <= i < out@.len() && out@[i]@ == keys@[j]@ by {
            if j < k {
                let i = choose|i: int| 0 <= i < out_before.len() && out_before[i]@ == keys@[j]@;
                assert(out@[i] == out_before[i]);
            } else {
                assert(out@[out_before.len() as int]@ == keys@[j]@);
            }
        }
        k += 1;
    }
    assert forall|key: Seq<char>| implicit_import(m, key, package@, class.name@) implies exists|i: int|
        0 <= i < out@.len() && #[trigger] out@[i]@ == key by {
        assert(m.dom().contains(key));
        let j = choose|j: int| 0 <= j < keys@.len() && keys@[j]@ == key;
        assert(implicit_import(m, keys@[j]@, package@, class.name@));
    }
    out
}

/// `m` with `r` added to the uses of every class path that it holds and
/// that uses the class named `name` from `package` (see `implicit_import`).
pub open spec fn add_package_references(
    m: Map<Seq<char>, Seq<RefView>>,
    classes: Map<Seq<char>, ClassView>,
    package: Seq<char>,
    name: Seq<char>,
    r: RefView,
) -> Map<Seq<char>, Seq<RefView>> {
    Map::new(
        |k: Seq<char>| m.dom().contains(k),
        |k: Seq<char>|
            if implicit_import(classes, k, package, name) {
                m[k].push(r)
            } else {
                m[k]
            },
    )
}

/// The reference map `m` after the imports `imports` of `class` are
/// recorded in turn: a class import or a static class import adds `class`
/// to the uses of the class imported; a package or prefix import adds it
/// to those of each class of that package in `classes` that uses a class
/// of `class`'s name; other imports change nothing.
pub open spec fn references_after(
    m: Map<Seq<char>, Seq<RefView>>,
    classes: Map<Seq<char>, ClassView>,
    class: ClassView,
    imports: Seq<ImportView>,
) -> Map<Seq<char>, Seq<RefView>>
    decreases imports.len(),
{
    if imports.len() == 0 {
        m
    } else {
        let before = references_after(m, classes, class, imports.drop_last());
        match imports.last() {
            ImportView::Package(p) => add_package_references(before, classes, p, class.name, RefView::Class(class.class_path)),
            ImportView::Prefix(p) => add_package_references(before, classes, p, class.name, RefView::Class(class.class_path)),
            ImportView::Class(c) => add_reference(before, c, RefView::Class(class.class_path)),
            ImportView::StaticClass(c) => add_reference(before, c, RefView::StaticClass(class.class_path)),
            _ => before,
        }
    }
}

/// Records the uses of `imported` that `class` makes from `package` (see
/// `add_package_references`).
fn add_package_uses(
    class: &Class,
    class_map: &DashMap<String, Class>,
    reference_map: &mut DashMap<String, Vec<ReferenceUnit>>,
    package: &String,
)
    ensures
        reference_map_contents(*final(reference_map)) == add_package_references(
            reference_map_contents(*old(reference_map)),
            class_map_contents(*class_map),
            package@,
            class.name@,
            RefView::Class(class.class_path@),
        ),
{
    let ghost m0 = reference_map_contents(*reference_map);
    let ghost classes = class_map_contents(*class_map);
    let ghost r = RefView::Class(class.class_path@);
    let implicit_imports = get_implicit_imports(class_map, class, package);
    let ghost ks = implicit_imports@.map_values(|x: String| x@);
    let mut j: usize = 0;
    while j < implicit_imports.len()
        invariant
            j <= implicit_imports@.len(),
            ks == implicit_imports@.map_values(|x: String| x@),
            classes == class_map_contents(*class_map),
            r == RefView::Class(class.class_path@),
            forall|i: int, l: int| 0 <= i < l < implicit_imports@.len() ==> implicit_imports@[i]@ != implicit_imports@[l]@,
            reference_map_contents(*reference_map) == Map::new(
                |k: Seq<char>| m0.dom().contains(k),
                |k: Seq<char>|
                    if ks.take(j as int).contains(k) {
                        m0[k].push(r)
                    } else {
                        m0[k]
                    },
            ),
        decreases implicit_imports.len() - j,
    {
        let s = &implicit_imports[j];
        let ghost cur = reference_map_contents(*reference_map);
        assert(!ks.take(j as int).contains(s@)) by {
            if ks.take(j as int).contains(s@) {
                let i = choose|i: int| 0 <= i < j && ks.take(j as int)[i] == s@;
                assert(implicit_imports@[i]@ == implicit_imports@[j as int]@);
            }
        }
        assert(ks.take(j + 1) =~= ks.take(j as int).push(s@));
        match reference_map_get(reference_map, s.as_str()) {
            Some(mut a) => {
                let ghost before = a@;
                a.push(ReferenceUnit::Class(class.class_path.clone()));
                assert(refs_view(a@) =~= refs_view(before).push(r));
                reference_map_insert(reference_map, s.clone(), a);
                assert(cur.dom().contains(s@) && cur[s@] == m0[s@]);
                let ghost next = Map::new(
                    |k: Seq<char>| m0.dom().contains(k),
                    |k: Seq<char>|
                        if ks.take(j + 1).contains(k) {
                            m0[k].push(r)
                        } else {
                            m0[k]
                        },
                );
                assert forall|k: Seq<char>| #[trigger] next.dom().contains(k) implies reference_map_contents(*reference_map)[k] == next[k] by {
                    if k == s@ {
                        assert(ks[j as int] == s@);
                        assert(ks.take(j + 1)[j as int] == s@);
                        assert(ks.take(j + 1).contains(k));
                    } else {
                        assert(ks.take(j + 1).contains(k) == ks.take(j as int).contains(k));
                    }
                }
                assert(reference_map_contents(*reference_map) =~= Map::new(
                    |k: Seq<char>| m0.dom().contains(k),
                    |k: Seq<char>|
                        if ks.take(j + 1).contains(k) {
                            m0[k].push(r)
                        } else {
                            m0[k]
                        },
                ));
            },
            None => {
                assert(cur =~= Map::new(
                    |k: Seq<char>| m0.dom().contains(k),
                    |k: Seq<char>|
                        if ks.take(j + 1).contains(k) {
                            m0[k].push(r)
                        } else {
                            m0[k]
                        },
                ));
            },
        }
        j += 1;
    }
    assert(ks.take(j as int) =~= ks);
    assert forall|k: Seq<char>| ks.contains(k) <==> implicit_import(classes, k, package@, class.name@) by {
        if ks.contains(k) {
            let i = choose|i: int| 0 <= i < ks.len() && ks[i] == k;
            assert(implicit_imports@[i]@ == k);
        }
        if implicit_import(classes, k, package@, class.name@) {
            let i = choose|i: int| 0 <= i < implicit_imports@.len() && #[trigger] implicit_imports@[i]@ == k;
            assert(ks[i] == k);
        }
    }
    assert(reference_map_contents(*reference_map) =~= add_package_references(m0, classes, package@, class.name@, r));
}

/// Records in `reference_map` the uses that the imports of `class` make
/// (see `references_after`).
pub fn reference_update_class(
    class: &Class,
    class_map: &DashMap<String, Class>,
    reference_map: &mut DashMap<String, Vec<ReferenceUnit>>,
)
    ensures
        reference_map_contents(*final(reference_map)) == references_after(
            reference_map_contents(*old(reference_map)),
            class_map_contents(*class_map),
            class@,
            imports_view(class.imports@),
        ),
{
    let ghost m0 = reference_map_contents(*reference_map);
    let ghost iv = imports_view(class.imports@);
    let mut k: usize = 0;
    while k < class.imports.len()
        invariant
            k <= class.imports@.len(),
            iv == imports_view(class.imports@),
            reference_map_contents(*reference_map) == references_after(
                m0,
                class_map_contents(*class_map),
                class@,
                iv.take(k as int),
            ),
        decreases class.imports.len() - k,
    {
        assert(iv.take(k + 1).drop_last() =~= iv.take(k as int));
        assert(iv.take(k + 1).last() == class.imports@[k as int]@);
        match &class.imports[k] {
            ImportUnit::Package(p) | ImportUnit::Prefix(p) => {
                add_package_uses(class, class_map, reference_map, p);
            },
            ImportUnit::Class(s) => {
                let ghost before = reference_map_contents(*reference_map);
                let insert = vec![ReferenceUnit::Class(class.class_path.clone())];
                assert(refs_view(insert@) =~= seq![RefView::Class(class.class_path@)]);
                insert_or_extend(reference_map, s, insert);
                assert(before.dom().contains(s@) ==> before[s@] + refs_view(insert@) =~= before[s@].push(
                    RefView::Class(class.class_path@),
                ));
            },
            ImportUnit::StaticClass(s) => {
                let ghost before = reference_map_contents(*reference_map);
                let insert = vec![ReferenceUnit::StaticClass(class.class_path.clone())];
                assert(refs_view(insert@) =~= seq![RefView::StaticClass(class.class_path@)]);
                insert_or_extend(reference_map, s, insert);
                assert(before.dom().contains(s@) ==> before[s@] + refs_view(insert@) =~= before[s@].push(
                    RefView::StaticClass(class.class_path@),
                ));
            },
            ImportUnit::StaticClassMethod(_, _) | ImportUnit::StaticPrefix(_) => {},
        }
        k += 1;
    }
    assert(iv.take(k as int) =~= iv);
}

/// The reference map `m` after the imports of each of `cs` are recorded in
/// turn (see `references_after`).
pub open spec fn references_of_all(
    m: Map<Seq<char>, Seq<RefView>>,
    classes: Map<Seq<char>, ClassView>,
    cs: Seq<ClassView>,
) -> Map<Seq<char>, Seq<RefView>>
    decreases cs.len(),
{
    if cs.len() == 0 {
        m
    } else {
        let before = references_of_all(m, classes, cs.drop_last());
        references_after(before, classes, cs.last(), cs.last().imports)
    }
}

/// Records in `reference_map` the uses that the imports of each project
/// class make, one class after another (see `references_of_all`).
pub fn init_refernece_map(
    project_classes: &[Class],
    class_map: &DashMap<String, Class>,
    reference_map: &mut DashMap<String, Vec<ReferenceUnit>>,
)
    ensures
        reference_map_contents(*final(reference_map)) == references_of_all(
            reference_map_contents(*old(reference_map)),
            class_map_contents(*class_map),
            project_classes@.map_values(|c: Class| c@),
        ),
{
    let ghost m0 = reference_map_contents(*reference_map);
    let ghost cs = project_classes@.map_values(|c: Class| c@);
    let mut k: usize = 0;
    while k < project_classes.len()
        invariant
            k <= project_classes@.len(),
            cs == project_classes@.map_values(|c: Class| c@),
            reference_map_contents(*reference_map) == references_of_all(m0, class_map_contents(*class_map), cs.take(k as int)),
        decreases project_classes.len() - k,
    {
        assert(cs.take(k + 1).drop_last() =~= cs.take(k as int));
        assert(cs.take(k + 1).last() == project_classes@[k as int]@);
        reference_update_class(&project_classes[k], class_map, reference_map);
        k += 1;
    }
    assert(cs.take(k as int) =~= cs);
}

} // verus!
