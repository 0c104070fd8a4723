//! Where a loaded class's source file lies, the class path that a class
//! file's name stands for, and the errors of loading.
use vstd::prelude::*;

use crate::class_file::main_separator;
use crate::text::{
    chars_of, ends_with, ends_with_exec, replace_char, replace_char_exec, starts_with,
    starts_with_exec, string_of, trim_end_matches, trim_end_matches_exec, trim_start_matches,
    trim_start_matches_exec,
};

verus! {

#[verifier::external_type_specification]
#[verifier::external_body]
pub struct ExZipError(rc_zip_tokio::rc_zip::error::Error);

#[derive(Debug)]
pub enum ParserLoaderError {
    IO(std::io::Error),
    Zip(rc_zip_tokio::rc_zip::error::Error),
    SkipBytesStart(std::io::Error),
}

#[derive(Debug, Clone)]
pub enum SourceDestination {
    Here(String),
    RelativeInFolder(String),
    Empty,
}

/// Where a source lies, its paths taken as characters.
pub enum SourceView {
    Here(Seq<char>),
    RelativeInFolder(Seq<char>),
    Empty,
}

impl View for SourceDestination {
    type V = SourceView;

    open spec fn view(&self) -> SourceView {
        match self {
            SourceDestination::Here(p) => SourceView::Here(p@),
            SourceDestination::RelativeInFolder(p) => SourceView::RelativeInFolder(p@),
            SourceDestination::Empty => SourceView::Empty,
        }
    }
}


fn trim_start_str(s: &str, p: &str) -> (r: String)
    ensures
        r@ == trim_start_matches(s@, p@),
{
    let v = trim_start_matches_exec(&chars_of(s), &chars_of(p));
    let r = string_of(&v, 0, v.len());
    assert(v@.subrange(0, v@.len() as int) =~= v@);
    r
}

/// The class path of an entry of a jar: the entry's name without leading
/// `/`s and trailing `.class`es, with `/` turned into `.`; only entries
/// named `*.class` stand for a class, and `module-info.class` does not.
pub open spec fn spec_jar_class_path(file_name: Seq<char>) -> Option<Seq<char>> {
    if !ends_with(file_name, ".class"@) || starts_with(file_name, "module-info.class"@) {
        None
    } else {
        Some(replace_char(trim_end_matches(trim_start_matches(file_name, "/"@), ".class"@), '/', '.'))
    }
}

/// The class path that a jar entry named `file_name` stands for (see
/// `spec_jar_class_path`).
pub fn jar_class_path(file_name: &str) -> (r: Option<String>)
    ensures
        match spec_jar_class_path(file_name@) {
            Some(c) => r matches Some(x) && x@ == c,
            None => r is None,
        },
{
    let v = chars_of(file_name);
    if !ends_with_exec(&v, &chars_of(".class")) || starts_with_exec(&v, &chars_of("module-info.class")) {
        return None;
    }
    let a = trim_start_str(file_name, "/");
    let b = trim_end_matches_exec(a.as_str(), ".class");
    Some(replace_char_exec(b.as_str(), '/', '.'))
}

/// The class path of the class file at `path` under the folder `folder`:
/// the path without the folder in front, without leading separators and
/// trailing `.class`es, with each separator `sep` turned into `.`;
/// `module-info.class` stands for no class.
pub open spec fn spec_folder_class_path(path: Seq<char>, folder: Seq<char>, sep: char) -> Option<Seq<char>> {
    if ends_with(path, "module-info.class"@) {
        None
    } else {
        let relative = trim_start_matches(trim_start_matches(path, folder), seq![sep]);
        Some(replace_char(trim_end_matches(relative, ".class"@), sep, '.'))
    }
}

/// The class path of the class file at `path` under `folder` (see
/// `spec_folder_class_path`), with the platform's separator.
pub fn folder_class_path(path: &str, folder: &str) -> (r: Option<String>)
    ensures
        exists|sep: char|
            (sep == '/' || sep == '\\') && match #[trigger] spec_folder_class_path(path@, folder@, sep) {
                Some(c) => r matches Some(x) && x@ == c,
                None => r is None,
            },
{
    let sep = main_separator();
    if ends_with_exec(&chars_of(path), &chars_of("module-info.class")) {
        return None;
    }
    let mut sep_text = String::new();
    crate::text::push_char(&mut sep_text, sep);
    assert(sep_text@ =~= seq![sep]);
    let a = trim_start_str(path, folder);
    let b = trim_start_str(a.as_str(), sep_text.as_str());
    let c = trim_end_matches_exec(b.as_str(), ".class");
    let r = replace_char_exec(c.as_str(), sep, '.');
    assert(spec_folder_class_path(path@, folder@, sep) == Some(r@));
    Some(r)
}

} // verus!
