//! Reading Java source: the syntax tree that tree-sitter gives, and from it
//! the description of the class that the file declares.
pub mod ast;
pub mod header;
pub mod error;
pub mod jtype;
pub mod lexer;
pub mod members;
pub mod vocabulary;
pub mod syntax;

use vstd::prelude::*;

use crate::dto::{
    fields_view, imports_view, methods_view, spec_class_name, supers_view, Access, Class,
    ClassError, ClassView, Field, FieldView, ImportUnit, ImportView, JType, JTypeView, Method,
    MethodView, SuperClass, SuperView,
};
use crate::java::members::{
    annotation_element_at, enum_constant_at, field_at, interface_constant_at,
    interface_method_at, method_at, parse_annotation_type_element_declaration,
    parse_enum_constant, parse_field, parse_interface_constant, parse_interface_method,
    parse_method,
};
use crate::loader::{SourceDestination, SourceView};
use crate::java::jtype::{jtype_at, parse_jtype, strings_view};
use crate::java::syntax::{
    parse_java_syntax, spec_java_syntax, down_pos, node_valid_up_to, utf8_valid_up_to, get_string, kind_at, kind_is, lemma_moves, next_pos, node_text, nodes_view,
    sibling, up_pos, well_placed, NodeCursor, NodeView, SyntaxNode,
};
use crate::text::{chars_of, replace_char, replace_char_exec, rsplit_once, rsplit_once_exec, string_of};
use crate::treesitter::TreesitterError;

verus! {

#[derive(Debug)]
pub enum ParseJavaError {
    Treesitter(TreesitterError),
    Utf8(std::str::Utf8Error),
    Class(ClassError),
    Io(std::io::Error),
    UnknownJType(String, String),
    UnknownWildcard(String),
}

/// What a class error tells.
pub enum ClassErr {
    IO(std::io::Error),
    Asm,
    Unknown,
    ParseError,
    UnknownClassName,
    UnknownClassPath,
    InvalidClassPath,
}

pub open spec fn class_err_view(e: ClassError) -> ClassErr {
    match e {
        ClassError::IO(x) => ClassErr::IO(x),
        ClassError::Asm => ClassErr::Asm,
        ClassError::Unknown => ClassErr::Unknown,
        ClassError::ParseError => ClassErr::ParseError,
        ClassError::UnknownClassName => ClassErr::UnknownClassName,
        ClassError::UnknownClassPath => ClassErr::UnknownClassPath,
        ClassError::InvalidClassPath => ClassErr::InvalidClassPath,
    }
}

/// What a loading error tells, its texts taken as characters and a UTF-8
/// error by how far its input was valid.
pub enum JavaErr {
    Treesitter(TreesitterError),
    Utf8 { valid_up_to: nat },
    Class(ClassErr),
    Io(std::io::Error),
    UnknownJType(Seq<char>, Seq<char>),
    UnknownWildcard(Seq<char>),
}

impl View for ParseJavaError {
    type V = JavaErr;

    open spec fn view(&self) -> JavaErr {
        match self {
            ParseJavaError::Treesitter(t) => JavaErr::Treesitter(*t),
            ParseJavaError::Utf8(e) => JavaErr::Utf8 { valid_up_to: utf8_valid_up_to(*e) },
            ParseJavaError::Class(c) => JavaErr::Class(class_err_view(*c)),
            ParseJavaError::Io(e) => JavaErr::Io(*e),
            ParseJavaError::UnknownJType(k, t) => JavaErr::UnknownJType(k@, t@),
            ParseJavaError::UnknownWildcard(w) => JavaErr::UnknownWildcard(w@),
        }
    }
}

/// The error for a node whose text is not valid UTF-8.
pub open spec fn utf8_err(ns: Seq<NodeView>, b: Seq<u8>, c: int) -> JavaErr {
    JavaErr::Utf8 { valid_up_to: node_valid_up_to(ns, b, c) }
}

/// The class path that import `i` brings in under `name`: that of an import
/// of a class whose last name is `name`.
pub open spec fn import_path(i: ImportView, name: Seq<char>) -> Option<Seq<char>> {
    match i {
        ImportView::Class(p) | ImportView::StaticClass(p) => if spec_class_name(p) == Some(name) {
            Some(p)
        } else {
            None
        },
        _ => None,
    }
}

/// The first class path that one of `imports` brings in under `name`.
pub open spec fn imported_path(imports: Seq<ImportView>, name: Seq<char>) -> Option<Seq<char>>
    decreases imports.len(),
{
    if imports.len() == 0 {
        None
    } else {
        match import_path(imports[0], name) {
            Some(p) => Some(p),
            None => imported_path(imports.drop_first(), name),
        }
    }
}

/// The super class or interface that the type at `c` names: when it names
/// a class (plain or generic), the class path that an import gives for
/// that name, else the name itself; nothing for any other type.
pub open spec fn superclass_at(ns: Seq<NodeView>, b: Seq<u8>, c: int, imports: Seq<ImportView>) -> Result<
    SuperView,
    JavaErr,
> {
    match jtype_at(ns, b, c, seq![]) {
        Err(e) => Err(e),
        Ok(j) => Ok(
            match j {
                JTypeView::Class(n) | JTypeView::Generic(n, _) => match imported_path(imports, n) {
                    Some(p) => SuperView::ClassPath(p),
                    None => SuperView::Name(n),
                },
                _ => SuperView::Empty,
            },
        ),
    }
}

fn find_imported(imports: &Vec<ImportUnit>, name: &str) -> (r: Option<String>)
    ensures
        match imported_path(imports_view(imports@), name@) {
            Some(p) => r matches Some(x) && x@ == p,
            None => r is None,
        },
{
    let ghost iv = imports_view(imports@);
    let mut k: usize = 0;
    assert(iv.skip(0) =~= iv);
    while k < imports.len()
        invariant
            k <= imports.len(),
            iv == imports_view(imports@),
            imported_path(iv, name@) == imported_path(iv.skip(k as int), name@),
        decreases imports.len() - k,
    {
        assert(iv.skip(k as int)[0] == imports@[k as int]@);
        assert(iv.skip(k as int).drop_first() =~= iv.skip(k + 1));
        match imports[k].get_imported_class_package(name) {
            Some(p) => {
                return Some(p);
            },
            None => {},
        }
        k += 1;
    }
    assert(iv.skip(k as int).len() == 0);
    None
}

/// Reads the super class or interface that node `c` names (see
/// `superclass_at`).
pub fn parse_superclass(ns: &Vec<SyntaxNode>, bytes: &[u8], imports: &Vec<ImportUnit>, c: usize) -> (r:
    Result<SuperClass, ParseJavaError>)
    requires
        c < ns.len(),
        well_placed(nodes_view(ns@), bytes@.len() as int),
    ensures
        match superclass_at(nodes_view(ns@), bytes@, c as int, imports_view(imports@)) {
            Ok(s) => r matches Ok(x) && x@ == s,
            Err(e) => r matches Err(x) && x@ == e,
        },
{
    let none: Vec<String> = Vec::new();
    assert(strings_view(none@) =~= Seq::<Seq<char>>::empty());
    let j = match parse_jtype(ns, bytes, c, &none) {
        Ok(j) => j,
        Err(e) => {
            return Err(e);
        },
    };
    match j {
        JType::Class(n) | JType::Generic(n, _) => match find_imported(imports, n.as_str()) {
            Some(p) => Ok(SuperClass::ClassPath(p)),
            None => Ok(SuperClass::Name(n)),
        },
        _ => Ok(SuperClass::Empty),
    }
}

/// Whether `c` is a lowercase letter.
pub uninterp spec fn spec_is_lowercase(c: char) -> bool;

/// Calls `char::is_lowercase`, which tests Unicode's Lowercase property;
/// what it gives is named `spec_is_lowercase`.
#[verifier::external_body]
fn is_lowercase(c: char) -> (b: bool)
    ensures
        b == spec_is_lowercase(c),
{
    c.is_lowercase()
}

/// The import that a declaration makes of `path`: a static import of a
/// path whose last name starts with a lowercase letter imports a method of
/// the class before it.
pub open spec fn import_unit(stat: bool, prefix: bool, path: Seq<char>) -> ImportView {
    if stat && prefix {
        ImportView::StaticPrefix(path)
    } else if stat {
        match rsplit_once(path, seq!['.']) {
            Some((class, method)) => if method.len() > 0 && spec_is_lowercase(method[0]) {
                ImportView::StaticClassMethod(class, method)
            } else {
                ImportView::StaticClass(path)
            },
            None => ImportView::StaticClass(path),
        }
    } else if prefix {
        ImportView::Prefix(path)
    } else {
        ImportView::Class(path)
    }
}

/// The text of node `c`, or nothing where it is not valid UTF-8.
pub open spec fn text_or_empty(ns: Seq<NodeView>, b: Seq<u8>, c: int) -> Seq<char> {
    match node_text(ns, b, c) {
        Some(t) => t,
        None => seq![],
    }
}

/// The import that the declaration at `p` makes, and where the cursor
/// stands after it: after `import` and an optional `static` comes the
/// path; a `*` after it (and after a `.`) imports everything under the
/// path. A declaration without a path makes none.
pub open spec fn import_at(ns: Seq<NodeView>, b: Seq<u8>, root: int, p: int) -> (Option<ImportView>, int) {
    let d1 = next_pos(ns, root, down_pos(ns, root, p));
    let stat = kind_at(ns, d1) == "static"@;
    let d2 = if stat {
        next_pos(ns, root, d1)
    } else {
        d1
    };
    if kind_at(ns, d2) == "scoped_identifier"@ {
        let (moved, d3) = sibling(ns, root, d2);
        let d4 = if moved && kind_at(ns, d3) == "."@ {
            next_pos(ns, root, d3)
        } else {
            d3
        };
        let prefix = moved && kind_at(ns, d4) == "asterisk"@;
        (Some(import_unit(stat, prefix, text_or_empty(ns, b, d2))), d4)
    } else {
        (None, d2)
    }
}

/// The imports that the import declarations from `p` on make, after `acc`,
/// and where the cursor ends. The cursor goes on to the next sibling while
/// that moves it past the last declaration.
pub open spec fn imports_from(ns: Seq<NodeView>, b: Seq<u8>, root: int, p: int, acc: Seq<ImportView>) -> (
    Seq<ImportView>,
    int,
)
    decreases ns.len() - p,
{
    if p < 0 || p >= ns.len() || kind_at(ns, p) != "import_declaration"@ {
        (acc, p)
    } else {
        let (imp, q) = import_at(ns, b, root, p);
        let acc2 = match imp {
            Some(i) => acc.push(i),
            None => acc,
        };
        let (moved, p2) = sibling(ns, root, up_pos(ns, root, q));
        if moved && p < p2 && p2 < ns.len() {
            imports_from(ns, b, root, p2, acc2)
        } else {
            (acc2, p2)
        }
    }
}

pub(crate) fn text_or_empty_exec(ns: &Vec<SyntaxNode>, bytes: &[u8], c: usize) -> (s: String)
    requires
        c < ns.len(),
        well_placed(nodes_view(ns@), bytes@.len() as int),
    ensures
        s@ == text_or_empty(nodes_view(ns@), bytes@, c as int),
{
    match get_string(ns, bytes, c) {
        Ok(s) => s,
        Err(_) => String::new(),
    }
}

fn import_unit_exec(stat: bool, prefix: bool, path: String) -> (r: ImportUnit)
    ensures
        r@ == import_unit(stat, prefix, path@),
{
    if stat && prefix {
        ImportUnit::StaticPrefix(path)
    } else if stat {
        let v = chars_of(path.as_str());
        let mut dot: Vec<char> = Vec::new();
        dot.push('.');
        assert(dot@ =~= seq!['.']);
        match rsplit_once_exec(&v, &dot) {
            Some((class, method)) => {
                if method.len() > 0 && is_lowercase(method[0]) {
                    let cs = string_of(&class, 0, class.len());
                    let ms = string_of(&method, 0, method.len());
                    assert(class@.subrange(0, class@.len() as int) =~= class@);
                    assert(method@.subrange(0, method@.len() as int) =~= method@);
                    ImportUnit::StaticClassMethod(cs, ms)
                } else {
                    ImportUnit::StaticClass(path)
                }
            },
            None => ImportUnit::StaticClass(path),
        }
    } else if prefix {
        ImportUnit::Prefix(path)
    } else {
        ImportUnit::Class(path)
    }
}

fn parse_import(ns: &Vec<SyntaxNode>, bytes: &[u8], cursor: &mut NodeCursor) -> (r: Option<ImportUnit>)
    requires
        old(cursor).pos < ns.len(),
        well_placed(nodes_view(ns@), bytes@.len() as int),
    ensures
        final(cursor).root == old(cursor).root,
        final(cursor).pos < ns.len(),
        ({
            let (imp, q) = import_at(
                nodes_view(ns@),
                bytes@,
                old(cursor).root as int,
                old(cursor).pos as int,
            );
            &&& final(cursor).pos == q
            &&& match imp {
                Some(i) => r matches Some(x) && x@ == i,
                None => r is None,
            }
        }),
{
    cursor.first_child(ns);
    cursor.sibling(ns);
    let mut stat = false;
    let mut prefix = false;
    if kind_is(ns, cursor.pos, "static") {
        stat = true;
        cursor.sibling(ns);
    }
    if kind_is(ns, cursor.pos, "scoped_identifier") {
        let class_path = text_or_empty_exec(ns, bytes, cursor.pos);
        if cursor.sibling(ns) {
            if kind_is(ns, cursor.pos, ".") {
                cursor.sibling(ns);
            }
            if kind_is(ns, cursor.pos, "asterisk") {
                prefix = true;
            }
        }
        Some(import_unit_exec(stat, prefix, class_path))
    } else {
        None
    }
}

/// Reads the import declarations from the cursor on (see `imports_from`).
/// Where the cursor cannot move on past the last declaration, the reading
/// stops there.
pub fn parse_import_declarations(ns: &Vec<SyntaxNode>, bytes: &[u8], cursor: &mut NodeCursor) -> (r: Vec<
    ImportUnit,
>)
    requires
        old(cursor).pos < ns.len(),
        well_placed(nodes_view(ns@), bytes@.len() as int),
    ensures
        final(cursor).root == old(cursor).root,
        final(cursor).pos < ns.len(),
        imports_from(nodes_view(ns@), bytes@, old(cursor).root as int, old(cursor).pos as int, seq![])
            == (imports_view(r@), final(cursor).pos as int),
{
    let ghost nv = nodes_view(ns@);
    let ghost root = cursor.root as int;
    let ghost start = cursor.pos as int;
    let mut out: Vec<ImportUnit> = Vec::new();
    assert(imports_view(out@) =~= Seq::<ImportView>::empty());
    loop
        invariant_except_break
            imports_from(nv, bytes@, root, start, seq![]) == imports_from(
                nv,
                bytes@,
                root,
                cursor.pos as int,
                imports_view(out@),
            ),
        invariant
            cursor.pos < ns.len(),
            cursor.root == root,
            nv == nodes_view(ns@),
            well_placed(nodes_view(ns@), bytes@.len() as int),
        ensures
            imports_from(nv, bytes@, root, start, seq![]) == (imports_view(out@), cursor.pos as int),
        decreases ns.len() - cursor.pos,
    {
        let head = cursor.pos;
        if !kind_is(ns, head, "import_declaration") {
            break;
        }
        let ghost before = out@;
        match parse_import(ns, bytes, cursor) {
            Some(i) => {
                let ghost iv = i@;
                out.push(i);
                assert(imports_view(out@) =~= imports_view(before).push(iv));
            },
            None => {},
        }
        cursor.parent(ns);
        let moved = cursor.sibling(ns);
        if !(moved && head < cursor.pos) {
            break;
        }
    }
    out
}

/// What the type declared in a file gives: its name, its super class and
/// interfaces, its methods and fields.
pub struct ThingView {
    pub name: Option<Seq<char>>,
    pub super_class: SuperView,
    pub super_interfaces: Seq<SuperView>,
    pub methods: Seq<MethodView>,
    pub fields: Seq<FieldView>,
}

/// The name at `d`, when `d` is an identifier.
pub open spec fn name_at(ns: Seq<NodeView>, b: Seq<u8>, d: int) -> Result<Option<Seq<char>>, JavaErr> {
    if kind_at(ns, d) == "identifier"@ {
        match node_text(ns, b, d) {
            None => Err(utf8_err(ns, b, d)),
            Some(t) => Ok(Some(t)),
        }
    } else {
        Ok(None)
    }
}

/// The fields and methods declared among `p` and its siblings, after `fs`
/// and `ms`.
pub open spec fn class_body_from(
    ns: Seq<NodeView>,
    b: Seq<u8>,
    p: int,
    fs: Seq<FieldView>,
    ms: Seq<MethodView>,
) -> Result<(Seq<FieldView>, Seq<MethodView>), JavaErr>
    decreases ns.len() - p,
{
    if p < 0 || p >= ns.len() {
        Ok((fs, ms))
    } else {
        let here: Result<(Seq<FieldView>, Seq<MethodView>), JavaErr> = if kind_at(ns, p)
            == "field_declaration"@ {
            match field_at(ns, b, p) {
                Ok(f) => Ok((seq![f], seq![])),
                Err(e) => Err(e),
            }
        } else if kind_at(ns, p) == "method_declaration"@ {
            match method_at(ns, b, p) {
                Ok(m) => Ok((seq![], seq![m])),
                Err(e) => Err(e),
            }
        } else {
            Ok((seq![], seq![]))
        };
        match here {
            Err(e) => Err(e),
            Ok((hf, hm)) => {
                let (moved, p2) = sibling(ns, 0, p);
                proof {
                    lemma_moves(ns, 0, p);
                }
                if moved {
                    class_body_from(ns, b, p2, fs + hf, ms + hm)
                } else {
                    Ok((fs + hf, ms + hm))
                }
            },
        }
    }
}

/// The constants and methods declared among `p` and the siblings the
/// cursor moves on to, after `fs` and `ms`. The cursor goes on while it
/// moves past `p`.
pub open spec fn interface_body_from(
    ns: Seq<NodeView>,
    b: Seq<u8>,
    p: int,
    fs: Seq<FieldView>,
    ms: Seq<MethodView>,
) -> Result<(Seq<FieldView>, Seq<MethodView>), JavaErr>
    decreases ns.len() - p,
{
    if p < 0 || p >= ns.len() {
        Ok((fs, ms))
    } else {
        let here: Result<(Seq<FieldView>, Seq<MethodView>, int), JavaErr> = if kind_at(ns, p)
            == "constant_declaration"@ {
            match interface_constant_at(ns, b, 0, p) {
                Ok((f, q)) => Ok((seq![f], seq![], q)),
                Err(e) => Err(e),
            }
        } else if kind_at(ns, p) == "method_declaration"@ {
            match interface_method_at(ns, b, 0, p) {
                Ok((m, q)) => Ok((seq![], seq![m], q)),
                Err(e) => Err(e),
            }
        } else {
            Ok((seq![], seq![], p))
        };
        match here {
            Err(e) => Err(e),
            Ok((hf, hm, q)) => {
                let (moved, p2) = sibling(ns, 0, q);
                if moved && p < p2 && p2 < ns.len() {
                    interface_body_from(ns, b, p2, fs + hf, ms + hm)
                } else {
                    Ok((fs + hf, ms + hm))
                }
            },
        }
    }
}

/// The enum constants (or, for an annotation type, its elements) among `p`
/// and its siblings, after `fs`.
pub open spec fn constants_from(ns: Seq<NodeView>, b: Seq<u8>, p: int, fs: Seq<FieldView>, annotation: bool) -> Result<
    Seq<FieldView>,
    JavaErr,
>
    decreases ns.len() - p,
{
    if p < 0 || p >= ns.len() {
        Ok(fs)
    } else {
        let here: Result<Seq<FieldView>, JavaErr> = if !annotation && kind_at(ns, p)
            == "enum_constant"@ {
            match enum_constant_at(ns, b, p) {
                Ok(f) => Ok(seq![f]),
                Err(e) => Err(e),
            }
        } else if annotation && kind_at(ns, p) == "annotation_type_element_declaration"@ {
            match annotation_element_at(ns, b, p) {
                Ok(f) => Ok(seq![f]),
                Err(e) => Err(e),
            }
        } else {
            Ok(seq![])
        };
        match here {
            Err(e) => Err(e),
            Ok(h) => {
                let (moved, p2) = sibling(ns, 0, p);
                proof {
                    lemma_moves(ns, 0, p);
                }
                if moved {
                    constants_from(ns, b, p2, fs + h, annotation)
                } else {
                    Ok(fs + h)
                }
            },
        }
    }
}

/// The interfaces extended from the sibling after `q` on, after `acc`,
/// each after an optional `,`; and where the cursor ends.
pub open spec fn extends_from(
    ns: Seq<NodeView>,
    b: Seq<u8>,
    q: int,
    acc: Seq<SuperView>,
    imports: Seq<ImportView>,
) -> Result<(Seq<SuperView>, int), JavaErr>
    decreases ns.len() - q,
{
    if q < 0 || q >= ns.len() {
        Ok((acc, q))
    } else {
        let (moved, p) = sibling(ns, 0, q);
        proof {
            lemma_moves(ns, 0, q);
        }
        if !moved {
            Ok((acc, p))
        } else {
            let p1 = if kind_at(ns, p) == ","@ {
                next_pos(ns, 0, p)
            } else {
                p
            };
            proof {
                lemma_moves(ns, 0, p);
            }
            match superclass_at(ns, b, p1, imports) {
                Err(e) => Err(e),
                Ok(s) => extends_from(ns, b, p1, acc.push(s), imports),
            }
        }
    }
}

/// The class declared at `c`: after the modifiers and `class`, its name;
/// then its super class, read from the child after `extends`; then the
/// fields and methods among the children of the node that follows. Where
/// a super class is given, that node is the `extends` keyword, which has
/// none.
pub open spec fn class_thing(ns: Seq<NodeView>, b: Seq<u8>, c: int, imports: Seq<ImportView>) -> Result<
    ThingView,
    JavaErr,
> {
    let d1 = next_pos(ns, 0, next_pos(ns, 0, down_pos(ns, 0, c)));
    match name_at(ns, b, d1) {
        Err(e) => Err(e),
        Ok(name) => {
            let d2 = next_pos(ns, 0, d1);
            let sup: Result<(SuperView, int), JavaErr> = if kind_at(ns, d2) == "superclass"@ {
                let e1 = next_pos(ns, 0, down_pos(ns, 0, d2));
                match superclass_at(ns, b, e1, imports) {
                    Err(e) => Err(e),
                    Ok(s) => Ok((s, down_pos(ns, 0, up_pos(ns, 0, e1)))),
                }
            } else {
                Ok((SuperView::Empty, d2))
            };
            match sup {
                Err(e) => Err(e),
                Ok((super_class, d3)) => {
                    let (moved, p) = sibling(ns, 0, down_pos(ns, 0, d3));
                    let body = if moved {
                        class_body_from(ns, b, p, seq![], seq![])
                    } else {
                        Ok((seq![], seq![]))
                    };
                    match body {
                        Err(e) => Err(e),
                        Ok((fields, methods)) => Ok(
                            ThingView {
                                name,
                                super_class,
                                super_interfaces: seq![],
                                methods,
                                fields,
                            },
                        ),
                    }
                },
            }
        },
    }
}

/// The interface declared at `c`: its name; the interfaces it extends,
/// after its type parameters; the constants and methods among the
/// children of the node that follows.
pub open spec fn interface_thing(ns: Seq<NodeView>, b: Seq<u8>, c: int, imports: Seq<ImportView>) -> Result<
    ThingView,
    JavaErr,
> {
    let d1 = next_pos(ns, 0, next_pos(ns, 0, down_pos(ns, 0, c)));
    match name_at(ns, b, d1) {
        Err(e) => Err(e),
        Ok(name) => {
            let d2 = next_pos(ns, 0, d1);
            let d3 = if kind_at(ns, d2) == "type_parameters"@ {
                next_pos(ns, 0, d2)
            } else {
                d2
            };
            let ext: Result<(Seq<SuperView>, int), JavaErr> = if kind_at(ns, d3)
                == "extends_interfaces"@ {
                let e1 = down_pos(ns, 0, next_pos(ns, 0, down_pos(ns, 0, d3)));
                match superclass_at(ns, b, e1, imports) {
                    Err(e) => Err(e),
                    Ok(s0) => match extends_from(ns, b, e1, seq![s0], imports) {
                        Err(e) => Err(e),
                        Ok((supers, e2)) => Ok(
                            (supers, next_pos(ns, 0, up_pos(ns, 0, up_pos(ns, 0, e2)))),
                        ),
                    },
                }
            } else {
                Ok((seq![], d3))
            };
            match ext {
                Err(e) => Err(e),
                Ok((super_interfaces, d4)) => {
                    let (moved, p) = sibling(ns, 0, down_pos(ns, 0, d4));
                    let body = if moved {
                        interface_body_from(ns, b, p, seq![], seq![])
                    } else {
                        Ok((seq![], seq![]))
                    };
                    match body {
                        Err(e) => Err(e),
                        Ok((fields, methods)) => Ok(
                            ThingView {
                                name,
                                super_class: SuperView::Empty,
                                super_interfaces,
                                methods,
                                fields,
                            },
                        ),
                    }
                },
            }
        },
    }
}

/// The enum (or annotation type) declared at `c`: its name, and its
/// constants (or elements) among the children of the node that follows.
pub open spec fn constants_thing(ns: Seq<NodeView>, b: Seq<u8>, c: int, annotation: bool) -> Result<
    ThingView,
    JavaErr,
> {
    let d1 = next_pos(ns, 0, next_pos(ns, 0, down_pos(ns, 0, c)));
    match name_at(ns, b, d1) {
        Err(e) => Err(e),
        Ok(name) => {
            let (moved, p) = sibling(ns, 0, down_pos(ns, 0, next_pos(ns, 0, d1)));
            let body = if moved {
                constants_from(ns, b, p, seq![], annotation)
            } else {
                Ok(seq![])
            };
            match body {
                Err(e) => Err(e),
                Ok(fields) => Ok(
                    ThingView {
                        name,
                        super_class: SuperView::Empty,
                        super_interfaces: seq![],
                        methods: seq![],
                        fields,
                    },
                ),
            }
        },
    }
}

/// The type declared at `c`, by its kind; no type for any other node.
pub open spec fn thing_at(ns: Seq<NodeView>, b: Seq<u8>, c: int, imports: Seq<ImportView>) -> Result<
    ThingView,
    JavaErr,
> {
    let k = kind_at(ns, c);
    if k == "class_declaration"@ {
        class_thing(ns, b, c, imports)
    } else if k == "interface_declaration"@ {
        interface_thing(ns, b, c, imports)
    } else if k == "enum_declaration"@ {
        constants_thing(ns, b, c, false)
    } else if k == "annotation_type_declaration"@ {
        constants_thing(ns, b, c, true)
    } else {
        Ok(
            ThingView {
                name: None,
                super_class: SuperView::Empty,
                super_interfaces: seq![],
                methods: seq![],
                fields: seq![],
            },
        )
    }
}

/// Where the source of class `name` in package `base` lies: under a folder
/// `folder/<base with / for .>/name.java`; a given path with `/` for each
/// `\`; or nowhere.
pub open spec fn source_path(source: SourceView, base: Seq<char>, name: Seq<char>) -> Seq<char> {
    match source {
        SourceView::RelativeInFolder(e) => e + "/"@ + replace_char(base, '.', '/') + "/"@ + name
            + ".java"@,
        SourceView::Here(e) => replace_char(e, '\\', '/'),
        SourceView::Empty => seq![],
    }
}

/// The package that the file declares first, if any, and where the
/// cursor stands after it.
pub open spec fn package_at(ns: Seq<NodeView>, b: Seq<u8>) -> Result<(Option<Seq<char>>, int), JavaErr> {
    let c0 = down_pos(ns, 0, 0);
    if kind_at(ns, c0) == "package_declaration"@ {
        let d = next_pos(ns, 0, down_pos(ns, 0, c0));
        match node_text(ns, b, d) {
            None => Err(utf8_err(ns, b, d)),
            Some(t) => Ok((Some(t), up_pos(ns, 0, d))),
        }
    } else {
        Ok((None, c0))
    }
}

/// The class that a file with package `base` and `imports` declares, from
/// what its type declaration gives.
pub open spec fn finish_class(
    thing: ThingView,
    base: Option<Seq<char>>,
    imports: Seq<ImportView>,
    source: SourceView,
) -> Result<ClassView, JavaErr> {
    match thing.name {
        None => Err(JavaErr::Class(ClassErr::UnknownClassName)),
        Some(name) => match base {
            None => Err(JavaErr::Class(ClassErr::UnknownClassPath)),
            Some(base) => Ok(
                ClassView {
                    class_path: base + "."@ + name,
                    source: source_path(source, base, name),
                    access: 0,
                    imports,
                    name,
                    methods: thing.methods,
                    fields: thing.fields,
                    super_class: thing.super_class,
                    super_interfaces: thing.super_interfaces,
                },
            ),
        },
    }
}

/// The class that the tree `ns` of the file `b` declares: its package, its
/// imports (the package first), and what its type declaration gives. A file
/// whose type has no name, or that has no package, declares none.
pub open spec fn class_at(ns: Seq<NodeView>, b: Seq<u8>, source: SourceView) -> Result<
    ClassView,
    JavaErr,
> {
    match package_at(ns, b) {
        Err(e) => Err(e),
        Ok((base, c1)) => {
            let first: Seq<ImportView> = match base {
                Some(t) => seq![ImportView::Package(t)],
                None => seq![],
            };
            let (more, c3) = imports_from(ns, b, 0, next_pos(ns, 0, c1), seq![]);
            match thing_at(ns, b, c3, first + more) {
                Err(e) => Err(e),
                Ok(thing) => finish_class(thing, base, first + more, source),
            }
        },
    }
}

struct Thing {
    name: Option<String>,
    super_class: SuperClass,
    super_interfaces: Vec<SuperClass>,
    methods: Vec<Method>,
    fields: Vec<Field>,
}

impl View for Thing {
    type V = ThingView;

    closed spec fn view(&self) -> ThingView {
        ThingView {
            name: crate::dto::opt_view(self.name),
            super_class: self.super_class@,
            super_interfaces: supers_view(self.super_interfaces@),
            methods: methods_view(self.methods@),
            fields: fields_view(self.fields@),
        }
    }
}

fn read_name(ns: &Vec<SyntaxNode>, bytes: &[u8], d: usize) -> (r: Result<Option<String>, ParseJavaError>)
    requires
        d < ns.len(),
        well_placed(nodes_view(ns@), bytes@.len() as int),
    ensures
        match name_at(nodes_view(ns@), bytes@, d as int) {
            Ok(n) => r matches Ok(x) && crate::dto::opt_view(x) == n,
            Err(e) => r matches Err(x) && x@ == e,
        },
{
    if kind_is(ns, d, "identifier") {
        match get_string(ns, bytes, d) {
            Ok(s) => Ok(Some(s)),
            Err(e) => Err(ParseJavaError::Utf8(e)),
        }
    } else {
        Ok(None)
    }
}

fn read_class_body(ns: &Vec<SyntaxNode>, bytes: &[u8], p: usize) -> (r: Result<
    (Vec<Field>, Vec<Method>),
    ParseJavaError,
>)
    requires
        p < ns.len(),
        well_placed(nodes_view(ns@), bytes@.len() as int),
    ensures
        match class_body_from(nodes_view(ns@), bytes@, p as int, seq![], seq![]) {
            Ok((fs, ms)) => r matches Ok((f, m)) && fields_view(f@) == fs && methods_view(m@) == ms,
            Err(e) => r matches Err(x) && x@ == e,
        },
{
    let ghost nv = nodes_view(ns@);
    let mut fields: Vec<Field> = Vec::new();
    let mut methods: Vec<Method> = Vec::new();
    let mut cursor = NodeCursor { root: 0, pos: p };
    assert(fields_view(fields@) =~= Seq::<FieldView>::empty());
    assert(methods_view(methods@) =~= Seq::<MethodView>::empty());
    loop
        invariant_except_break
            class_body_from(nv, bytes@, p as int, seq![], seq![]) == class_body_from(
                nv,
                bytes@,
                cursor.pos as int,
                fields_view(fields@),
                methods_view(methods@),
            ),
        invariant
            cursor.pos < ns.len(),
            cursor.root == 0,
            nv == nodes_view(ns@),
            well_placed(nodes_view(ns@), bytes@.len() as int),
        ensures
            class_body_from(nv, bytes@, p as int, seq![], seq![]) == Ok::<
                (Seq<FieldView>, Seq<MethodView>),
                JavaErr,
            >((fields_view(fields@), methods_view(methods@))),
        decreases ns.len() - cursor.pos,
    {
        let head = cursor.pos;
        let ghost fb = fields@;
        let ghost mb = methods@;
        if kind_is(ns, head, "field_declaration") {
            match parse_field(ns, bytes, head) {
                Ok(f) => {
                    let ghost v = f@;
                    fields.push(f);
                    assert(fields_view(fields@) =~= fields_view(fb) + seq![v]);
                },
                Err(e) => {
                    return Err(e);
                },
            }
        } else if kind_is(ns, head, "method_declaration") {
            match parse_method(ns, bytes, head) {
                Ok(m) => {
                    let ghost v = m@;
                    methods.push(m);
                    assert(methods_view(methods@) =~= methods_view(mb) + seq![v]);
                },
                Err(e) => {
                    return Err(e);
                },
            }
        }
        proof {
            lemma_moves(nv, 0, head as int);
            assert(fields_view(fb) + Seq::<FieldView>::empty() =~= fields_view(fb));
            assert(methods_view(mb) + Seq::<MethodView>::empty() =~= methods_view(mb));
        }
        let moved = cursor.sibling(ns);
        if !moved {
            break;
        }
    }
    Ok((fields, methods))
}

fn read_interface_body(ns: &Vec<SyntaxNode>, bytes: &[u8], p: usize) -> (r: Result<
    (Vec<Field>, Vec<Method>),
    ParseJavaError,
>)
    requires
        p < ns.len(),
        well_placed(nodes_view(ns@), bytes@.len() as int),
    ensures
        match interface_body_from(nodes_view(ns@), bytes@, p as int, seq![], seq![]) {
            Ok((fs, ms)) => r matches Ok((f, m)) && fields_view(f@) == fs && methods_view(m@) == ms,
            Err(e) => r matches Err(x) && x@ == e,
        },
{
    let ghost nv = nodes_view(ns@);
    let mut fields: Vec<Field> = Vec::new();
    let mut methods: Vec<Method> = Vec::new();
    let mut cursor = NodeCursor { root: 0, pos: p };
    assert(fields_view(fields@) =~= Seq::<FieldView>::empty());
    assert(methods_view(methods@) =~= Seq::<MethodView>::empty());
    loop
        invariant_except_break
            interface_body_from(nv, bytes@, p as int, seq![], seq![]) == interface_body_from(
                nv,
                bytes@,
                cursor.pos as int,
                fields_view(fields@),
                methods_view(methods@),
            ),
        invariant
            cursor.pos < ns.len(),
            cursor.root == 0,
            nv == nodes_view(ns@),
            well_placed(nodes_view(ns@), bytes@.len() as int),
        ensures
            interface_body_from(nv, bytes@, p as int, seq![], seq![]) == Ok::<
                (Seq<FieldView>, Seq<MethodView>),
                JavaErr,
            >((fields_view(fields@), methods_view(methods@))),
        decreases ns.len() - cursor.pos,
    {
        let head = cursor.pos;
        let ghost fb = fields@;
        let ghost mb = methods@;
        if kind_is(ns, head, "constant_declaration") {
            match parse_interface_constant(ns, bytes, &mut cursor) {
                Ok(f) => {
                    let ghost v = f@;
                    fields.push(f);
                    assert(fields_view(fields@) =~= fields_view(fb) + seq![v]);
                    assert(methods_view(methods@) =~= methods_view(mb) + Seq::<MethodView>::empty());
                },
                Err(e) => {
                    return Err(e);
                },
            }
        } else if kind_is(ns, head, "method_declaration") {
            match parse_interface_method(ns, bytes, &mut cursor) {
                Ok(m) => {
                    let ghost v = m@;
                    methods.push(m);
                    assert(methods_view(methods@) =~= methods_view(mb) + seq![v]);
                    assert(fields_view(fields@) =~= fields_view(fb) + Seq::<FieldView>::empty());
                },
                Err(e) => {
                    return Err(e);
                },
            }
        } else {
            assert(fields_view(fb) + Seq::<FieldView>::empty() =~= fields_view(fb));
            assert(methods_view(mb) + Seq::<MethodView>::empty() =~= methods_view(mb));
        }
        let moved = cursor.sibling(ns);
        if !(moved && head < cursor.pos) {
            break;
        }
    }
    Ok((fields, methods))
}

fn read_constants(ns: &Vec<SyntaxNode>, bytes: &[u8], p: usize, annotation: bool) -> (r: Result<
    Vec<Field>,
    ParseJavaError,
>)
    requires
        p < ns.len(),
        well_placed(nodes_view(ns@), bytes@.len() as int),
    ensures
        match constants_from(nodes_view(ns@), bytes@, p as int, seq![], annotation) {
            Ok(fs) => r matches Ok(f) && fields_view(f@) == fs,
            Err(e) => r matches Err(x) && x@ == e,
        },
{
    let ghost nv = nodes_view(ns@);
    let mut fields: Vec<Field> = Vec::new();
    let mut cursor = NodeCursor { root: 0, pos: p };
    assert(fields_view(fields@) =~= Seq::<FieldView>::empty());
    loop
        invariant_except_break
            constants_from(nv, bytes@, p as int, seq![], annotation) == constants_from(
                nv,
                bytes@,
                cursor.pos as int,
                fields_view(fields@),
                annotation,
            ),
        invariant
            cursor.pos < ns.len(),
            cursor.root == 0,
            nv == nodes_view(ns@),
            well_placed(nodes_view(ns@), bytes@.len() as int),
        ensures
            constants_from(nv, bytes@, p as int, seq![], annotation) == Ok::<Seq<FieldView>, JavaErr>(
                fields_view(fields@),
            ),
        decreases ns.len() - cursor.pos,
    {
        let head = cursor.pos;
        let ghost fb = fields@;
        if !annotation && kind_is(ns, head, "enum_constant") {
            match parse_enum_constant(ns, bytes, head) {
                Ok(f) => {
                    let ghost v = f@;
                    fields.push(f);
                    assert(fields_view(fields@) =~= fields_view(fb) + seq![v]);
                },
                Err(e) => {
                    return Err(e);
                },
            }
        } else if annotation && kind_is(ns, head, "annotation_type_element_declaration") {
            match parse_annotation_type_element_declaration(ns, bytes, head) {
                Ok(f) => {
                    let ghost v = f@;
                    fields.push(f);
                    assert(fields_view(fields@) =~= fields_view(fb) + seq![v]);
                },
                Err(e) => {
                    return Err(e);
                },
            }
        } else {
            assert(fields_view(fb) + Seq::<FieldView>::empty() =~= fields_view(fb));
        }
        proof {
            lemma_moves(nv, 0, head as int);
        }
        let moved = cursor.sibling(ns);
        if !moved {
            break;
        }
    }
    Ok(fields)
}

fn read_extends(ns: &Vec<SyntaxNode>, bytes: &[u8], q: usize, imports: &Vec<ImportUnit>, first: SuperClass) -> (r:
    Result<(Vec<SuperClass>, usize), ParseJavaError>)
    requires
        q < ns.len(),
        well_placed(nodes_view(ns@), bytes@.len() as int),
    ensures
        match extends_from(nodes_view(ns@), bytes@, q as int, seq![first@], imports_view(imports@)) {
            Ok((ss, e)) => r matches Ok((v, x)) && supers_view(v@) == ss && x == e && x < ns.len(),
            Err(e) => r matches Err(x) && x@ == e,
        },
{
    let ghost nv = nodes_view(ns@);
    let ghost iv = imports_view(imports@);
    let ghost fv = first@;
    let mut out: Vec<SuperClass> = Vec::new();
    out.push(first);
    let mut cursor = NodeCursor { root: 0, pos: q };
    assert(supers_view(out@) =~= seq![fv]);
    loop
        invariant_except_break
            extends_from(nv, bytes@, q as int, seq![fv], iv) == extends_from(
                nv,
                bytes@,
                cursor.pos as int,
                supers_view(out@),
                iv,
            ),
        invariant
            cursor.pos < ns.len(),
            cursor.root == 0,
            nv == nodes_view(ns@),
            iv == imports_view(imports@),
            fv == first@,
            well_placed(nodes_view(ns@), bytes@.len() as int),
        ensures
            extends_from(nv, bytes@, q as int, seq![fv], iv) == Ok::<(Seq<SuperView>, int), JavaErr>(
                (supers_view(out@), cursor.pos as int),
            ),
        decreases ns.len() - cursor.pos,
    {
        let here = cursor.pos;
        proof {
            lemma_moves(nv, 0, here as int);
        }
        let moved = cursor.sibling(ns);
        if !moved {
            break;
        }
        if kind_is(ns, cursor.pos, ",") {
            proof {
                lemma_moves(nv, 0, cursor.pos as int);
            }
            cursor.sibling(ns);
        }
        let ghost ob = out@;
        match parse_superclass(ns, bytes, imports, cursor.pos) {
            Ok(sc) => {
                let ghost v = sc@;
                out.push(sc);
                assert(supers_view(out@) =~= supers_view(ob).push(v));
            },
            Err(e) => {
                assert(extends_from(nv, bytes@, here as int, supers_view(ob), iv) == Err::<(Seq<SuperView>, int), JavaErr>(e@));
                return Err(e);
            },
        }
    }
    let end = cursor.pos;
    Ok((out, end))
}

fn empty_thing() -> (t: Thing)
    ensures
        t@ == (ThingView {
            name: None,
            super_class: SuperView::Empty,
            super_interfaces: seq![],
            methods: seq![],
            fields: seq![],
        }),
{
    let t = Thing {
        name: None,
        super_class: SuperClass::Empty,
        super_interfaces: Vec::new(),
        methods: Vec::new(),
        fields: Vec::new(),
    };
    assert(supers_view(t.super_interfaces@) =~= Seq::<SuperView>::empty());
    assert(methods_view(t.methods@) =~= Seq::<MethodView>::empty());
    assert(fields_view(t.fields@) =~= Seq::<FieldView>::empty());
    t
}

fn parse_class_thing(ns: &Vec<SyntaxNode>, bytes: &[u8], c: usize, imports: &Vec<ImportUnit>) -> (r:
    Result<Thing, ParseJavaError>)
    requires
        c < ns.len(),
        well_placed(nodes_view(ns@), bytes@.len() as int),
    ensures
        match class_thing(nodes_view(ns@), bytes@, c as int, imports_view(imports@)) {
            Ok(t) => r matches Ok(x) && x@ == t,
            Err(e) => r matches Err(x) && x@ == e,
        },
{
    let mut cursor = NodeCursor { root: 0, pos: c };
    cursor.first_child(ns);
    cursor.sibling(ns);
    cursor.sibling(ns);
    let name = match read_name(ns, bytes, cursor.pos) {
        Ok(n) => n,
        Err(e) => {
            return Err(e);
        },
    };
    cursor.sibling(ns);
    let mut super_class = SuperClass::Empty;
    if kind_is(ns, cursor.pos, "superclass") {
        cursor.first_child(ns);
        cursor.sibling(ns);
        super_class = match parse_superclass(ns, bytes, imports, cursor.pos) {
            Ok(s) => s,
            Err(e) => {
                return Err(e);
            },
        };
        cursor.parent(ns);
        cursor.first_child(ns);
    }
    cursor.first_child(ns);
    let moved = cursor.sibling(ns);
    let mut thing = empty_thing();
    if moved {
        match read_class_body(ns, bytes, cursor.pos) {
            Ok((fields, methods)) => {
                thing.fields = fields;
                thing.methods = methods;
            },
            Err(e) => {
                return Err(e);
            },
        }
    }
    thing.name = name;
    thing.super_class = super_class;
    Ok(thing)
}

fn parse_interface_thing(ns: &Vec<SyntaxNode>, bytes: &[u8], c: usize, imports: &Vec<ImportUnit>) -> (r:
    Result<Thing, ParseJavaError>)
    requires
        c < ns.len(),
        well_placed(nodes_view(ns@), bytes@.len() as int),
    ensures
        match interface_thing(nodes_view(ns@), bytes@, c as int, imports_view(imports@)) {
            Ok(t) => r matches Ok(x) && x@ == t,
            Err(e) => r matches Err(x) && x@ == e,
        },
{
    let mut cursor = NodeCursor { root: 0, pos: c };
    cursor.first_child(ns);
    cursor.sibling(ns);
    cursor.sibling(ns);
    let name = match read_name(ns, bytes, cursor.pos) {
        Ok(n) => n,
        Err(e) => {
            return Err(e);
        },
    };
    cursor.sibling(ns);
    if kind_is(ns, cursor.pos, "type_parameters") {
        cursor.sibling(ns);
    }
    let mut thing = empty_thing();
    if kind_is(ns, cursor.pos, "extends_interfaces") {
        cursor.first_child(ns);
        cursor.sibling(ns);
        cursor.first_child(ns);
        let first = match parse_superclass(ns, bytes, imports, cursor.pos) {
            Ok(s) => s,
            Err(e) => {
                return Err(e);
            },
        };
        match read_extends(ns, bytes, cursor.pos, imports, first) {
            Ok((supers, end)) => {
                thing.super_interfaces = supers;
                cursor.pos = end;
            },
            Err(e) => {
                return Err(e);
            },
        }
        cursor.parent(ns);
        cursor.parent(ns);
        cursor.sibling(ns);
    }
    cursor.first_child(ns);
    let moved = cursor.sibling(ns);
    if moved {
        match read_interface_body(ns, bytes, cursor.pos) {
            Ok((fields, methods)) => {
                thing.fields = fields;
                thing.methods = methods;
            },
            Err(e) => {
                return Err(e);
            },
        }
    }
    thing.name = name;
    Ok(thing)
}

fn parse_constants_thing(ns: &Vec<SyntaxNode>, bytes: &[u8], c: usize, annotation: bool) -> (r: Result<
    Thing,
    ParseJavaError,
>)
    requires
        c < ns.len(),
        well_placed(nodes_view(ns@), bytes@.len() as int),
    ensures
        match constants_thing(nodes_view(ns@), bytes@, c as int, annotation) {
            Ok(t) => r matches Ok(x) && x@ == t,
            Err(e) => r matches Err(x) && x@ == e,
        },
{
    let mut cursor = NodeCursor { root: 0, pos: c };
    cursor.first_child(ns);
    cursor.sibling(ns);
    cursor.sibling(ns);
    let name = match read_name(ns, bytes, cursor.pos) {
        Ok(n) => n,
        Err(e) => {
            return Err(e);
        },
    };
    cursor.sibling(ns);
    cursor.first_child(ns);
    let moved = cursor.sibling(ns);
    let mut thing = empty_thing();
    if moved {
        match read_constants(ns, bytes, cursor.pos, annotation) {
            Ok(fields) => {
                thing.fields = fields;
            },
            Err(e) => {
                return Err(e);
            },
        }
    }
    thing.name = name;
    Ok(thing)
}

fn parse_thing(ns: &Vec<SyntaxNode>, bytes: &[u8], c: usize, imports: &Vec<ImportUnit>) -> (r: Result<
    Thing,
    ParseJavaError,
>)
    requires
        c < ns.len(),
        well_placed(nodes_view(ns@), bytes@.len() as int),
    ensures
        match thing_at(nodes_view(ns@), bytes@, c as int, imports_view(imports@)) {
            Ok(t) => r matches Ok(x) && x@ == t,
            Err(e) => r matches Err(x) && x@ == e,
        },
{
    if kind_is(ns, c, "class_declaration") {
        parse_class_thing(ns, bytes, c, imports)
    } else if kind_is(ns, c, "interface_declaration") {
        parse_interface_thing(ns, bytes, c, imports)
    } else if kind_is(ns, c, "enum_declaration") {
        parse_constants_thing(ns, bytes, c, false)
    } else if kind_is(ns, c, "annotation_type_declaration") {
        parse_constants_thing(ns, bytes, c, true)
    } else {
        Ok(empty_thing())
    }
}

fn source_path_exec(source: SourceDestination, base: &str, name: &str) -> (r: String)
    ensures
        r@ == source_path(source@, base@, name@),
{
    match source {
        SourceDestination::RelativeInFolder(e) => {
            let mut out = e;
            out.append("/");
            let b = replace_char_exec(base, '.', '/');
            out.append(b.as_str());
            out.append("/");
            out.append(name);
            out.append(".java");
            out
        },
        SourceDestination::Here(e) => replace_char_exec(e.as_str(), '\\', '/'),
        SourceDestination::Empty => String::new(),
    }
}

fn read_package(ns: &Vec<SyntaxNode>, bytes: &[u8], cursor: &mut NodeCursor) -> (r: Result<
    Option<String>,
    ParseJavaError,
>)
    requires
        old(cursor).root == 0,
        old(cursor).pos == 0,
        well_placed(nodes_view(ns@), bytes@.len() as int),
    ensures
        final(cursor).root == 0,
        final(cursor).pos < ns.len(),
        match package_at(nodes_view(ns@), bytes@) {
            Ok((base, c1)) => r matches Ok(x) && crate::dto::opt_view(x) == base && final(cursor).pos
                == c1,
            Err(e) => r matches Err(x) && x@ == e,
        },
{
    cursor.first_child(ns);
    if kind_is(ns, cursor.pos, "package_declaration") {
        cursor.first_child(ns);
        cursor.sibling(ns);
        let package = match get_string(ns, bytes, cursor.pos) {
            Ok(s) => s,
            Err(e) => {
                return Err(ParseJavaError::Utf8(e));
            },
        };
        cursor.parent(ns);
        Ok(Some(package))
    } else {
        Ok(None)
    }
}

fn finish_class_exec(thing: Thing, base: Option<String>, imports: Vec<ImportUnit>, source: SourceDestination) -> (r:
    Result<Class, ParseJavaError>)
    ensures
        match finish_class(thing@, crate::dto::opt_view(base), imports_view(imports@), source@) {
            Ok(c) => r matches Ok(x) && x@ == c,
            Err(e) => r matches Err(x) && x@ == e,
        },
{
    let name = match thing.name {
        Some(n) => n,
        None => {
            return Err(ParseJavaError::Class(ClassError::UnknownClassName));
        },
    };
    let base = match base {
        Some(b) => b,
        None => {
            return Err(ParseJavaError::Class(ClassError::UnknownClassPath));
        },
    };
    let source = source_path_exec(source, base.as_str(), name.as_str());
    let mut class_path = base;
    class_path.append(".");
    class_path.append(name.as_str());
    Ok(
        Class {
            class_path,
            source,
            access: Access::empty(),
            imports,
            name,
            methods: thing.methods,
            fields: thing.fields,
            super_class: thing.super_class,
            super_interfaces: thing.super_interfaces,
        },
    )
}

/// Reads the class that the tree `ns` of the file `bytes` declares (see
/// `class_at`).
pub fn load_java_tree(ns: &Vec<SyntaxNode>, bytes: &[u8], source: SourceDestination) -> (r: Result<
    Class,
    ParseJavaError,
>)
    requires
        well_placed(nodes_view(ns@), bytes@.len() as int),
    ensures
        match class_at(nodes_view(ns@), bytes@, source@) {
            Ok(c) => r matches Ok(x) && x@ == c,
            Err(e) => r matches Err(x) && x@ == e,
        },
{
    let mut cursor = NodeCursor { root: 0, pos: 0 };
    let base = match read_package(ns, bytes, &mut cursor) {
        Ok(b) => b,
        Err(e) => {
            return Err(e);
        },
    };
    let mut imports: Vec<ImportUnit> = Vec::new();
    match &base {
        Some(p) => {
            imports.push(ImportUnit::Package(p.clone()));
        },
        None => {},
    }
    let ghost first = imports_view(imports@);
    assert(first =~= match crate::dto::opt_view(base) {
        Some(t) => seq![ImportView::Package(t)],
        None => Seq::<ImportView>::empty(),
    });
    cursor.sibling(ns);
    let mut more = parse_import_declarations(ns, bytes, &mut cursor);
    let ghost mv = imports_view(more@);
    imports.append(&mut more);
    assert(imports_view(imports@) =~= first + mv);
    let thing = match parse_thing(ns, bytes, cursor.pos, &imports) {
        Ok(t) => t,
        Err(e) => {
            return Err(e);
        },
    };
    finish_class_exec(thing, base, imports, source)
}

/// Reads the class that the Java file `bytes` declares: from the tree that
/// tree-sitter's Java grammar gives (see `class_at`); a file that gives no
/// tree is a tree-sitter error.
pub fn load_java(bytes: &[u8], source: SourceDestination) -> (r: Result<Class, ParseJavaError>)
    ensures
        match spec_java_syntax(bytes@) {
            None => r matches Err(x) && x@ == JavaErr::Treesitter(TreesitterError::NoNodeFound),
            Some(nv) => match class_at(nv, bytes@, source@) {
                Ok(c) => r matches Ok(x) && x@ == c,
                Err(e) => r matches Err(x) && x@ == e,
            },
        },
{
    match parse_java_syntax(bytes) {
        None => Err(ParseJavaError::Treesitter(TreesitterError::NoNodeFound)),
        Some(ns) => load_java_tree(&ns, bytes, source),
    }
}

/// A class read from a Java file has its package as its first import, its
/// class path is that package, a `.` and its name, and its access is empty;
/// its source is the folder's path to the package's file, the given path
/// with `/` for `\`, or empty; a source given as a path keeps no `\`.
pub proof fn lemma_loaded_class(ns: Seq<NodeView>, b: Seq<u8>, source: SourceView)
    ensures
        class_at(ns, b, source) matches Ok(c) ==> {
            &&& c.imports.len() >= 1
            &&& c.imports[0] matches ImportView::Package(p) && c.class_path == p + "."@ + c.name && c.source
                == match source {
                SourceView::RelativeInFolder(e) => e + "/"@ + replace_char(p, '.', '/') + "/"@ + c.name + ".java"@,
                SourceView::Here(e) => replace_char(e, '\\', '/'),
                SourceView::Empty => seq![],
            }
            &&& c.access == 0
            &&& source is Here ==> !c.source.contains('\\')
        },
{
    if let Ok(c) = class_at(ns, b, source) {
        if let Ok((base, c1)) = package_at(ns, b) {
            let first: Seq<ImportView> = match base {
                Some(t) => seq![ImportView::Package(t)],
                None => seq![],
            };
            let (more, c3) = imports_from(ns, b, 0, next_pos(ns, 0, c1), seq![]);
            assert((first + more)[0] == first[0]);
            if let SourceView::Here(e) = source {
                let r = replace_char(e, '\\', '/');
                assert(forall|i: int| 0 <= i < r.len() ==> r[i] != '\\');
            }
        }
    }
}

} // verus!
