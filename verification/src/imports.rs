//! Which class paths the imports of a file bring into view, and reading the
//! package and the imports from a file's syntax tree.
use vstd::prelude::*;

use crate::document::Document;
use crate::dto::{imports_view, ImportUnit, ImportView};
use vstd::utf8::encode_utf8;
use crate::java::syntax::{down_pos, next_pos, nodes_view, up_pos, well_placed, NodeCursor, SyntaxNode};
use crate::java::{imports_from, parse_import_declarations, text_or_empty, text_or_empty_exec};
use crate::text::{starts_with, starts_with_exec, chars_of};

verus! {

/// A class, a static class or the class of a static method is imported
/// under its own path; a prefix, a static prefix or a package covers every
/// path that starts with it.
pub open spec fn import_covers(i: ImportView, class_path: Seq<char>) -> bool {
    match i {
        ImportView::Class(c) => c == class_path,
        ImportView::StaticClass(c) => c == class_path,
        ImportView::StaticClassMethod(c, _) => c == class_path,
        ImportView::Prefix(p) => starts_with(class_path, p),
        ImportView::StaticPrefix(p) => starts_with(class_path, p),
        ImportView::Package(p) => starts_with(class_path, p),
    }
}

/// The class path that an import names: the class imported (or the class
/// of a static method), or the prefix or package.
pub open spec fn import_path(i: ImportView) -> Seq<char> {
    match i {
        ImportView::Class(c) => c,
        ImportView::StaticClass(c) => c,
        ImportView::StaticClassMethod(c, _) => c,
        ImportView::Prefix(p) => p,
        ImportView::StaticPrefix(p) => p,
        ImportView::Package(p) => p,
    }
}

/// Whether an import brings in a whole prefix: a prefix, a static prefix
/// or a package.
pub open spec fn imports_prefix(i: ImportView) -> bool {
    i is Prefix || i is StaticPrefix || i is Package
}

/// Every import covers the class path it names.
pub proof fn lemma_import_covers_its_path(i: ImportView)
    ensures
        import_covers(i, import_path(i)),
{
    let p = import_path(i);
    assert(p.subrange(0, p.len() as int) =~= p);
}

/// An import of a prefix, a static prefix or a package covers exactly the
/// class paths that begin with the prefix it names, that prefix itself
/// among them; an import of a class, a static class or a static method
/// covers exactly the path it names.
pub proof fn lemma_import_covers(i: ImportView, class_path: Seq<char>)
    ensures
        imports_prefix(i) ==> (import_covers(i, class_path) <==> (import_path(i).len() <= class_path.len()
            && class_path.subrange(0, import_path(i).len() as int) == import_path(i))),
        !imports_prefix(i) ==> (import_covers(i, class_path) <==> class_path == import_path(i)),
{
}

/// An import of a prefix, a static prefix or a package covers every class
/// path that extends the prefix it names.
pub proof fn lemma_prefix_import_covers_extensions(i: ImportView, rest: Seq<char>)
    requires
        imports_prefix(i),
    ensures
        import_covers(i, import_path(i) + rest),
{
    let p = import_path(i);
    assert((p + rest).subrange(0, p.len() as int) =~= p);
}

fn covers(i: &ImportUnit, class_path: &str) -> (b: bool)
    ensures
        b == import_covers(i@, class_path@),
{
    match i {
        ImportUnit::Class(c) => crate::text::str_eq(c.as_str(), class_path),
        ImportUnit::StaticClass(c) => crate::text::str_eq(c.as_str(), class_path),
        ImportUnit::StaticClassMethod(c, _) => crate::text::str_eq(c.as_str(), class_path),
        ImportUnit::Prefix(p) | ImportUnit::StaticPrefix(p) | ImportUnit::Package(p) => {
            starts_with_exec(&chars_of(class_path), &chars_of(p.as_str()))
        },
    }
}

/// Whether one of `imports` covers `class_path` (see `import_covers`).
pub fn is_imported(imports: &[ImportUnit], class_path: &str) -> (b: bool)
    ensures
        b == exists|k: int| 0 <= k < imports@.len() && import_covers(#[trigger] imports@[k]@, class_path@),
{
    let mut k: usize = 0;
    while k < imports.len()
        invariant
            k <= imports@.len(),
            forall|j: int| 0 <= j < k ==> !import_covers(#[trigger] imports@[j]@, class_path@),
        decreases imports.len() - k,
    {
        if covers(&imports[k], class_path) {
            return true;
        }
        k += 1;
    }
    false
}

/// The package a file declares, from the second child of its first node,
/// then the imports that the import declarations after it make.
pub open spec fn imported_classpaths(ns: Seq<crate::java::syntax::NodeView>, b: Seq<u8>) -> Seq<ImportView> {
    let p = next_pos(ns, 0, down_pos(ns, 0, down_pos(ns, 0, 0)));
    let start = next_pos(ns, 0, up_pos(ns, 0, p));
    seq![ImportView::Package(text_or_empty(ns, b, p))] + imports_from(ns, b, 0, start, seq![]).0
}

/// Reads the package and the imports of the file whose tree is `ns` (see
/// `imported_classpaths`).
pub fn get_imported_classpaths(ns: &Vec<SyntaxNode>, bytes: &[u8]) -> (r: Vec<ImportUnit>)
    requires
        well_placed(nodes_view(ns@), bytes@.len() as int),
    ensures
        imports_view(r@) == imported_classpaths(nodes_view(ns@), bytes@),
{
    let mut cursor = NodeCursor { root: 0, pos: 0 };
    cursor.first_child(ns);
    cursor.first_child(ns);
    cursor.sibling(ns);
    let package = text_or_empty_exec(ns, bytes, cursor.pos);
    let mut out: Vec<ImportUnit> = Vec::new();
    out.push(ImportUnit::Package(package));
    cursor.parent(ns);
    cursor.sibling(ns);
    let mut rest = parse_import_declarations(ns, bytes, &mut cursor);
    let ghost head = out@;
    let ghost tail = rest@;
    out.append(&mut rest);
    assert(imports_view(out@) =~= imports_view(head) + imports_view(tail));
    out
}


/// The package and the imports of `document` (see `imported_classpaths`).
pub fn imports(document: &Document) -> (r: Vec<ImportUnit>)
    requires
        well_placed(nodes_view(document.tree@), encode_utf8(document.str_data@).len() as int),
    ensures
        imports_view(r@) == imported_classpaths(nodes_view(document.tree@), encode_utf8(document.str_data@)),
{
    get_imported_classpaths(&document.tree, document.as_bytes())
}

} // verus!
