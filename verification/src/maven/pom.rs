//! The model of a Maven `pom.xml` and the merge of a child with its parent.
//!
//! <https://maven.apache.org/guides/introduction/introduction-to-dependency-mechanism.html>
use vstd::prelude::*;

verus! {

#[verifier::external_type_specification]
#[verifier::external_body]
pub struct ExXmlError(serde_xml_rs::Error);

#[derive(Debug)]
pub enum ParseError {
    ParseError(serde_xml_rs::Error),
    ParentInformationNeeded(Parent),
}

#[derive(Debug)]
pub struct PrePom {
    pub parent: Option<Parent>,
    pub dependency_management: Option<DependencyManagement>,
}

/// Properties are kept as a list of key and value with no key twice, in
/// place of a hash map keyed by strings.
#[derive(Debug)]
pub struct Pom {
    pub model_version: Option<String>,
    pub group_id: String,
    pub artivact_id: String,
    pub packaging: Option<String>,
    pub name: Option<String>,
    pub version: String,
    pub parent: Option<Parent>,
    pub dependencies: Option<Dependencies>,
    pub dependency_management: Option<DependencyManagement>,
    pub properties: Vec<(String, String)>,
}

#[derive(Debug)]
pub struct Parent {
    pub artifact_id: String,
    pub group_id: String,
    pub version: String,
}

#[derive(Debug)]
pub struct DependencyManagement {
    pub dependencies: Dependencies,
}

#[derive(Debug)]
pub struct Dependencies {
    pub dependencies: Vec<Dependency>,
}

#[derive(Debug)]
pub struct Dependency {
    pub artifact_id: String,
    pub dtype: Option<String>,
    pub group_id: String,
    pub optional: Option<bool>,
    pub scope: Option<DependencyScope>,
    pub exclusions: Option<Exclusions>,
    pub version: Option<String>,
}

#[derive(Debug)]
pub struct Exclusions {
    pub exclusions: Vec<Exclusion>,
}

#[derive(Debug)]
pub struct Exclusion {
    pub artifact_id: String,
    pub group_id: String,
}

/// <https://maven.apache.org/guides/introduction/introduction-to-dependency-mechanism.html#dependency-scope>
#[derive(Debug, PartialEq, Eq, Structural, Clone, Copy)]
pub enum DependencyScope {
    Compile,
    Provided,
    /// No need to be indexed
    Runtime,
    /// Only considered in test
    Test,
    System,
    Import,
}

impl Default for DependencyScope {
    fn default() -> (r: Self)
        ensures
            r == DependencyScope::Compile,
    {
        DependencyScope::Compile
    }
}

fn copy_opt_string(s: &Option<String>) -> (r: Option<String>)
    ensures
        r == *s,
{
    match s {
        Some(x) => Some(x.clone()),
        None => None,
    }
}

impl Parent {
    pub fn copy(&self) -> (r: Parent)
        ensures
            r == *self,
    {
        Parent {
            artifact_id: self.artifact_id.clone(),
            group_id: self.group_id.clone(),
            version: self.version.clone(),
        }
    }
}

impl Exclusions {
    pub fn copy(&self) -> (r: Exclusions)
        ensures
            r.exclusions@ == self.exclusions@,
    {
        let mut out: Vec<Exclusion> = Vec::new();
        let mut k: usize = 0;
        while k < self.exclusions.len()
            invariant
                k <= self.exclusions.len(),
                out@ == self.exclusions@.take(k as int),
            decreases self.exclusions.len() - k,
        {
            let e = &self.exclusions[k];
            out.push(Exclusion { artifact_id: e.artifact_id.clone(), group_id: e.group_id.clone() });
            k += 1;
            assert(out@ =~= self.exclusions@.take(k as int));
        }
        assert(self.exclusions@.take(k as int) =~= self.exclusions@);
        Exclusions { exclusions: out }
    }
}

/// Two dependencies that are alike in every field, their exclusions taken
/// by the list they hold.
pub open spec fn same_dependency(a: Dependency, b: Dependency) -> bool {
    &&& a.artifact_id == b.artifact_id
    &&& a.dtype == b.dtype
    &&& a.group_id == b.group_id
    &&& a.optional == b.optional
    &&& a.scope == b.scope
    &&& a.version == b.version
    &&& match (a.exclusions, b.exclusions) {
        (Some(x), Some(y)) => x.exclusions@ == y.exclusions@,
        (None, None) => true,
        _ => false,
    }
}

impl Dependency {
    pub fn copy(&self) -> (r: Dependency)
        ensures
            same_dependency(r, *self),
    {
        Dependency {
            artifact_id: self.artifact_id.clone(),
            dtype: copy_opt_string(&self.dtype),
            group_id: self.group_id.clone(),
            optional: self.optional,
            scope: self.scope,
            exclusions: match &self.exclusions {
                Some(e) => Some(e.copy()),
                None => None,
            },
            version: copy_opt_string(&self.version),
        }
    }
}

/// Two lists of dependencies that are alike item by item.
pub open spec fn same_dependencies(a: Seq<Dependency>, b: Seq<Dependency>) -> bool {
    a.len() == b.len() && forall|k: int| 0 <= k < a.len() ==> same_dependency(#[trigger] a[k], b[k])
}

fn copy_dependencies(ds: &Vec<Dependency>) -> (r: Vec<Dependency>)
    ensures
        same_dependencies(r@, ds@),
{
    let mut out: Vec<Dependency> = Vec::new();
    let mut k: usize = 0;
    while k < ds.len()
        invariant
            k <= ds.len(),
            same_dependencies(out@, ds@.take(k as int)),
        decreases ds.len() - k,
    {
        let d = ds[k].copy();
        out.push(d);
        k += 1;
        assert(same_dependencies(out@, ds@.take(k as int))) by {
            assert forall|j: int| 0 <= j < out@.len() implies same_dependency(#[trigger] out@[j], ds@.take(k as int)[j]) by {
                if j < out@.len() - 1 {
                    assert(ds@.take(k as int)[j] == ds@.take(k - 1)[j]);
                }
            }
        }
    }
    assert(ds@.take(k as int) =~= ds@);
    out
}

/// The map that a list of properties stands for; a later entry for a key
/// wins over an earlier one.
pub open spec fn property_map(ps: Seq<(String, String)>) -> Map<Seq<char>, Seq<char>>
    decreases ps.len(),
{
    if ps.len() == 0 {
        Map::empty()
    } else {
        property_map(ps.drop_last()).insert(ps.last().0@, ps.last().1@)
    }
}

/// No key appears twice.
pub open spec fn distinct_keys(ps: Seq<(String, String)>) -> bool {
    forall|i: int, j: int| 0 <= i < j < ps.len() ==> ps[i].0@ != ps[j].0@
}

proof fn lemma_property_map_keys(ps: Seq<(String, String)>)
    ensures
        property_map(ps).dom() == Set::new(|k: Seq<char>| exists|i: int| 0 <= i < ps.len() && ps[i].0@ == k),
    decreases ps.len(),
{
    if ps.len() > 0 {
        lemma_property_map_keys(ps.drop_last());
        let s1 = property_map(ps).dom();
        let s2 = Set::new(|k: Seq<char>| exists|i: int| 0 <= i < ps.len() && ps[i].0@ == k);
        assert forall|k: Seq<char>| s1.contains(k) <==> s2.contains(k) by {
            if s1.contains(k) && k != ps.last().0@ {
                let i = choose|i: int| 0 <= i < ps.drop_last().len() && ps.drop_last()[i].0@ == k;
                assert(ps[i] == ps.drop_last()[i]);
            }
            if s2.contains(k) && k != ps.last().0@ {
                let i = choose|i: int| 0 <= i < ps.len() && ps[i].0@ == k;
                assert(ps.drop_last()[i] == ps[i]);
            }
        }
        assert(s1 =~= s2);
    }
}

/// Replacing the value at index `k` of a list without repeated keys sets
/// that key in the map.
proof fn lemma_property_map_update(ps: Seq<(String, String)>, k: int, entry: (String, String))
    requires
        distinct_keys(ps),
        0 <= k < ps.len(),
        entry.0@ == ps[k].0@,
    ensures
        property_map(ps.update(k, entry)) == property_map(ps).insert(entry.0@, entry.1@),
    decreases ps.len(),
{
    let qs = ps.update(k, entry);
    if k == ps.len() - 1 {
        assert(qs.drop_last() =~= ps.drop_last());
        assert(property_map(ps).insert(entry.0@, entry.1@) =~= property_map(ps.drop_last()).insert(entry.0@, entry.1@));
    } else {
        assert(qs.drop_last() =~= ps.drop_last().update(k, entry));
        lemma_property_map_update(ps.drop_last(), k, entry);
        assert(ps.last().0@ != entry.0@);
        assert(property_map(qs) =~= property_map(ps).insert(entry.0@, entry.1@));
    }
}

/// Sets one property: the value of an existing key is replaced, a new key
/// goes at the end.
fn set_property(ps: &mut Vec<(String, String)>, key: String, value: String)
    requires
        distinct_keys(old(ps)@),
    ensures
        distinct_keys(final(ps)@),
        property_map(final(ps)@) == property_map(old(ps)@).insert(key@, value@),
{
    let mut k: usize = 0;
    while k < ps.len()
        invariant
            k <= ps.len(),
            ps@ == old(ps)@,
            distinct_keys(old(ps)@),
            forall|j: int| 0 <= j < k ==> ps@[j].0@ != key@,
        decreases ps.len() - k,
    {
        if ps[k].0 == key {
            let ghost before = ps@;
            proof {
                lemma_property_map_update(before, k as int, (key, value));
            }
            ps.set(k, (key, value));
            assert forall|i: int, j: int| 0 <= i < j < ps@.len() implies ps@[i].0@ != ps@[j].0@ by {
                assert(before[i].0@ != before[j].0@);
            }
            return;
        }
        k += 1;
    }
    let ghost before = ps@;
    ps.push((key, value));
    assert(ps@.drop_last() =~= before);
}

/// Adds every property of `extra` to `ps`; a key already in `ps` takes the
/// value from `extra`.
fn extend_properties(ps: &mut Vec<(String, String)>, extra: &Vec<(String, String)>)
    requires
        distinct_keys(old(ps)@),
    ensures
        distinct_keys(final(ps)@),
        property_map(final(ps)@) == property_map(old(ps)@).union_prefer_right(property_map(extra@)),
{
    let mut k: usize = 0;
    assert(property_map(extra@.take(0)) =~= Map::<Seq<char>, Seq<char>>::empty());
    assert(property_map(old(ps)@).union_prefer_right(Map::<Seq<char>, Seq<char>>::empty()) =~= property_map(old(ps)@));
    while k < extra.len()
        invariant
            k <= extra.len(),
            distinct_keys(ps@),
            property_map(ps@) == property_map(old(ps)@).union_prefer_right(property_map(extra@.take(k as int))),
        decreases extra.len() - k,
    {
        let key = extra[k].0.clone();
        let value = extra[k].1.clone();
        set_property(ps, key, value);
        proof {
            assert(extra@.take(k + 1).drop_last() =~= extra@.take(k as int));
            assert(property_map(ps@) =~= property_map(old(ps)@).union_prefer_right(property_map(extra@.take(k + 1))));
        }
        k += 1;
    }
    assert(extra@.take(k as int) =~= extra@);
}

/// Whether `p` is the pom that `parent` names.
pub open spec fn is_parent(p: Pom, parent: Parent) -> bool {
    p.group_id@ == parent.group_id@ && p.artivact_id@ == parent.artifact_id@ && p.version@ == parent.version@
}

/// The first of `inputs` that `parent` names.
pub open spec fn first_parent(inputs: Seq<Pom>, parent: Parent) -> Option<int> {
    if exists|i: int| 0 <= i < inputs.len() && is_parent(inputs[i], parent) {
        Some(choose|i: int| 0 <= i < inputs.len() && is_parent(inputs[i], parent) && forall|j: int| 0 <= j < i ==> !is_parent(inputs[j], parent))
    } else {
        None
    }
}

/// What stays of the child and what a merge adds.
pub open spec fn resolved_from(out: Pom, pom: Pom, parent_info: Pom) -> bool {
    &&& out.model_version == pom.model_version
    &&& out.group_id == pom.group_id
    &&& out.artivact_id == pom.artivact_id
    &&& out.packaging == pom.packaging
    &&& out.name == pom.name
    &&& out.version == pom.version
    &&& out.parent == pom.parent
    &&& out.dependency_management == pom.dependency_management
    &&& property_map(out.properties@) == property_map(pom.properties@).union_prefer_right(property_map(parent_info.properties@))
    &&& distinct_keys(out.properties@)
    &&& match (pom.dependencies, parent_info.dependencies) {
        (Some(own), Some(inherited)) => out.dependencies matches Some(d) && same_dependencies(d.dependencies@, own.dependencies@ + inherited.dependencies@),
        _ => out.dependencies == pom.dependencies,
    }
}

impl Pom {
    #[allow(dead_code)]
    fn new() -> (r: Pom)
        ensures
            r.model_version is None,
            r.group_id@ == Seq::<char>::empty(),
            r.artivact_id@ == Seq::<char>::empty(),
            r.packaging is None,
            r.name is None,
            r.version@ == Seq::<char>::empty(),
            r.parent is None,
            r.dependencies is None,
            r.dependency_management is None,
            r.properties@.len() == 0,
    {
        Self {
            model_version: None,
            group_id: String::new(),
            artivact_id: String::new(),
            packaging: None,
            name: None,
            version: String::new(),
            parent: None,
            dependencies: None,
            dependency_management: None,
            properties: Vec::new(),
        }
    }
}

fn find_parent(inputs: &Vec<Pom>, parent: &Parent) -> (r: Option<usize>)
    ensures
        r matches Some(i) ==> i < inputs.len(),
        match r {
            Some(i) => first_parent(inputs@, *parent) == Some(i as int),
            None => first_parent(inputs@, *parent) is None,
        },
{
    let mut k: usize = 0;
    while k < inputs.len()
        invariant
            k <= inputs.len(),
            forall|j: int| 0 <= j < k ==> !is_parent(inputs@[j], *parent),
        decreases inputs.len() - k,
    {
        let i = &inputs[k];
        if i.group_id == parent.group_id && i.artivact_id == parent.artifact_id && i.version == parent.version {
            let ghost fp = first_parent(inputs@, *parent);
            assert(is_parent(inputs@[k as int], *parent));
            assert(fp is Some);
            let ghost c = fp->0;
            assert(!(c < k));
            assert(!(c > k));
            return Some(k);
        }
        k += 1;
    }
    None
}

/// Merges a pom with its parent, found among `inputs`: the parent's
/// properties are added (a key in both takes the parent's value) and, when
/// both list dependencies, the parent's go after the child's. A pom without
/// a parent comes back as it is; a parent missing from `inputs` is an error
/// that names it.
pub fn resolve(pom: Pom, inputs: Vec<Pom>) -> (r: Result<Pom, ParseError>)
    requires
        distinct_keys(pom.properties@),
    ensures
        match pom.parent {
            None => r matches Ok(out) && out == pom,
            Some(parent) => match first_parent(inputs@, parent) {
                None => r matches Err(ParseError::ParentInformationNeeded(p)) && p == parent,
                Some(i) => r matches Ok(out) && resolved_from(out, pom, inputs@[i]),
            },
        },
{
    let mut out = pom;
    if let Some(parent) = &out.parent {
        let Some(index) = find_parent(&inputs, parent) else {
            return Err(ParseError::ParentInformationNeeded(parent.copy()));
        };
        let parent_info = &inputs[index];
        extend_properties(&mut out.properties, &parent_info.properties);
        if let Some(pardep) = &parent_info.dependencies {
            if let Some(odep) = &mut out.dependencies {
                let mut extra = copy_dependencies(&pardep.dependencies);
                let ghost before = odep.dependencies@;
                let ghost added = extra@;
                odep.dependencies.append(&mut extra);
                proof {
                    let own = before;
                    let inherited = pardep.dependencies@;
                    assert forall|k: int| 0 <= k < odep.dependencies@.len() implies same_dependency(#[trigger] odep.dependencies@[k], (own + inherited)[k]) by {
                        if k >= own.len() {
                            assert(same_dependency(added[k - own.len()], inherited[k - own.len()]));
                        }
                    }
                }
            }
        }
    }
    Ok(out)
}

} // verus!
