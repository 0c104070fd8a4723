//! Where the jars of a dependency lie in the local Maven repository.
use vstd::prelude::*;

use crate::loader::ParserLoaderError;
use crate::maven::tree::{MavenTreeError, Pom};
use crate::text::{chars_of, split_char, split_char_exec, string_of};

verus! {

#[derive(Debug)]
pub enum MavenFetchError {
    NoHomeFound,
    Tree(MavenTreeError),
    NoClassPath,
    ParserLoader(ParserLoaderError),
    NoM2Folder,
    IO(std::io::Error),
}

/// What `std::path::Path::join` gives for a base path and a part, both
/// taken as text.
pub uninterp spec fn spec_path_join(base: Seq<char>, part: Seq<char>) -> Seq<char>;

/// What `std::path::PathBuf::set_file_name` makes of a path, taken as text.
pub uninterp spec fn spec_set_file_name(path: Seq<char>, file_name: Seq<char>) -> Seq<char>;

/// Calls `std::path::Path::join` on `base` with `part`; the result, as
/// text, is named `spec_path_join` of the two.
#[verifier::external_body]
fn path_join(base: &str, part: &str) -> (r: String)
    ensures
        r@ == spec_path_join(base@, part@),
{
    std::path::Path::new(base).join(part).to_string_lossy().into_owned()
}

/// Calls `std::path::PathBuf::set_file_name` on `path` with `file_name`;
/// the result, as text, is named `spec_set_file_name` of the two.
#[verifier::external_body]
fn path_set_file_name(path: &str, file_name: &str) -> (r: String)
    ensures
        r@ == spec_set_file_name(path@, file_name@),
{
    let mut p = std::path::PathBuf::from(path);
    p.set_file_name(file_name);
    p.to_string_lossy().into_owned()
}

/// `base` joined with every part in turn.
pub open spec fn join_all(base: Seq<char>, parts: Seq<Seq<char>>) -> Seq<char>
    decreases parts.len(),
{
    if parts.len() == 0 {
        base
    } else {
        spec_path_join(join_all(base, parts.drop_last()), parts.last())
    }
}

/// The jar's file name: `artifact-version.jar`, or
/// `artifact-version-classifier.jar`.
pub open spec fn jar_file_name(artifact: Seq<char>, version: Seq<char>, classifier: Option<Seq<char>>) -> Seq<char> {
    match classifier {
        Some(c) => artifact + "-"@ + version + "-"@ + c + ".jar"@,
        None => artifact + "-"@ + version + ".jar"@,
    }
}

/// `m2/repository/<group parts>/<artifact>/<version>/<version>`: the path
/// whose last part a jar's file name takes the place of.
pub open spec fn m2_jar_base(group: Seq<char>, artifact: Seq<char>, version: Seq<char>, m2: Seq<char>) -> Seq<char> {
    let repo = spec_path_join(m2, "repository"@);
    let grouped = join_all(repo, split_char(group, '.'));
    spec_path_join(spec_path_join(spec_path_join(grouped, artifact), version), version)
}

/// `m2/repository/<group parts>/<artifact>/<version>/<file name>`, built by
/// joining the parts and then setting the file name in place of a second
/// `<version>`.
pub open spec fn m2_jar_path(group: Seq<char>, artifact: Seq<char>, version: Seq<char>, m2: Seq<char>, classifier: Option<Seq<char>>) -> Seq<char> {
    spec_set_file_name(m2_jar_base(group, artifact, version, m2), jar_file_name(artifact, version, classifier))
}

/// The classes, sources and javadoc jars of one dependency are one and the
/// same path with three file names set on it: `artifact-version.jar`,
/// `artifact-version-sources.jar` and `artifact-version-javadoc.jar`.
pub proof fn lemma_jars_share_base(pom: Pom, m2: Seq<char>)
    ensures
        ({
            let (g, a, v) = (pom.group_id@, pom.artivact_id@, pom.version@);
            let base = m2_jar_base(g, a, v, m2);
            &&& m2_jar_path(g, a, v, m2, None) == spec_set_file_name(base, a + "-"@ + v + ".jar"@)
            &&& m2_jar_path(g, a, v, m2, Some("sources"@)) == spec_set_file_name(
                base,
                a + "-"@ + v + "-"@ + "sources"@ + ".jar"@,
            )
            &&& m2_jar_path(g, a, v, m2, Some("javadoc"@)) == spec_set_file_name(
                base,
                a + "-"@ + v + "-"@ + "javadoc"@ + ".jar"@,
            )
        }),
{
}

fn get_pom_m2_classifier_path(pom: &Pom, m2: &str, classifier: Option<&str>) -> (r: String)
    ensures
        r@ == m2_jar_path(pom.group_id@, pom.artivact_id@, pom.version@, m2@, match classifier {
            Some(c) => Some(c@),
            None => None,
        }),
{
    let group = chars_of(pom.group_id.as_str());
    let group_parts = split_char_exec(&group, '.');
    let ghost parts = group_parts@.map_values(|v: Vec<char>| v@);
    let mut p = path_join(m2, "repository");
    let mut k: usize = 0;
    assert(parts.take(0) =~= Seq::<Seq<char>>::empty());
    while k < group_parts.len()
        invariant
            k <= group_parts.len(),
            parts == group_parts@.map_values(|v: Vec<char>| v@),
            parts == split_char(group@, '.'),
            group@ == pom.group_id@,
            p@ == join_all(spec_path_join(m2@, "repository"@), parts.take(k as int)),
        decreases group_parts.len() - k,
    {
        let gp = &group_parts[k];
        let part = string_of(gp, 0, gp.len());
        assert(gp@.subrange(0, gp@.len() as int) =~= gp@);
        p = path_join(p.as_str(), part.as_str());
        proof {
            assert(parts.take(k + 1).drop_last() =~= parts.take(k as int));
            assert(parts.take(k + 1).last() == parts[k as int]);
        }
        k += 1;
    }
    assert(parts.take(k as int) =~= parts);
    p = path_join(p.as_str(), pom.artivact_id.as_str());
    p = path_join(p.as_str(), pom.version.as_str());
    p = path_join(p.as_str(), pom.version.as_str());
    let mut file_name = pom.artivact_id.clone();
    file_name.append("-");
    file_name.append(pom.version.as_str());
    match classifier {
        Some(c) => {
            file_name.append("-");
            file_name.append(c);
        },
        None => {},
    }
    file_name.append(".jar");
    path_set_file_name(p.as_str(), file_name.as_str())
}

/// The jar of a dependency's classes in the local repository `m2`.
pub fn pom_classes_jar(pom: &Pom, m2: &str) -> (r: String)
    ensures
        r@ == m2_jar_path(pom.group_id@, pom.artivact_id@, pom.version@, m2@, None),
{
    get_pom_m2_classifier_path(pom, m2, None)
}

/// The jar of a dependency's sources in the local repository `m2`.
pub fn pom_sources_jar(pom: &Pom, m2: &str) -> (r: String)
    ensures
        r@ == m2_jar_path(pom.group_id@, pom.artivact_id@, pom.version@, m2@, Some("sources"@)),
{
    get_pom_m2_classifier_path(pom, m2, Some("sources"))
}

/// The jar of a dependency's javadoc in the local repository `m2`.
pub fn pom_javadoc_jar(pom: &Pom, m2: &str) -> (r: String)
    ensures
        r@ == m2_jar_path(pom.group_id@, pom.artivact_id@, pom.version@, m2@, Some("javadoc"@)),
{
    get_pom_m2_classifier_path(pom, m2, Some("javadoc"))
}


/// Where the sources of a dependency are unpacked: the folder of its
/// sources jar, as `set_file_name("")` leaves it, joined with `source`.
pub open spec fn spec_source_dir(pom: Pom, m2: Seq<char>) -> Seq<char> {
    spec_path_join(
        spec_set_file_name(m2_jar_path(pom.group_id@, pom.artivact_id@, pom.version@, m2, Some("sources"@)), ""@),
        "source"@,
    )
}

/// The folder that the sources of a dependency are unpacked into (see
/// `spec_source_dir`).
pub fn pom_source_dir(pom: &Pom, m2: &str) -> (r: String)
    ensures
        r@ == spec_source_dir(*pom, m2@),
{
    let source_jar = pom_sources_jar(pom, m2);
    let folder = path_set_file_name(source_jar.as_str(), "");
    path_join(folder.as_str(), "source")
}

/// How far loading has come, in percent, once `completed` of `total`
/// dependencies are loaded.
pub fn progress_percentage(completed: usize, total: usize) -> (r: usize)
    requires
        total > 0,
        100 * completed <= usize::MAX,
    ensures
        r == (100 * completed) / total as int,
{
    (100 * completed) / total
}

} // verus!
