//! Where symbols stand in a Java file: the names of the classes, methods
//! and fields it declares, and the places it uses a type, found in its
//! syntax tree by the node kinds and fields around each name.
use vstd::prelude::*;

use crate::java::syntax::{
    lemma_parent_from, nodes_view, parse_java_syntax, raw_parent, raw_parent_exec, spec_java_syntax, well_placed,
    NodeView, SyntaxNode,
};
use crate::java::{text_or_empty, text_or_empty_exec};
use crate::text::str_eq;
use crate::treesitter::{Range, TreesitterError};
use crate::variable::node_range;
use vstd::utf8::encode_utf8;

verus! {

/// No name asked for matches every identifier; a name matches only itself.
pub fn is_valid_name(name: Option<&str>, i: &str) -> (b: bool)
    ensures
        b == match name {
            None => true,
            Some(n) => n@ == i@,
        },
{
    let Some(name) = name else {
        return true;
    };
    str_eq(name, i)
}

#[derive(Debug, PartialEq)]
pub enum PosionError {
    Treesitter(TreesitterError),
}

/// A place found: its range, or, where every name counts, also the name
/// and the kind of the node that declares it.
#[derive(Debug, PartialEq)]
pub enum PositionSymbol {
    Range(Range),
    Symbol { range: Range, name: String, kind: String },
}

pub enum SymbolView {
    Range(Range),
    Symbol { range: Range, name: Seq<char>, kind: Seq<char> },
}

impl View for PositionSymbol {
    type V = SymbolView;

    open spec fn view(&self) -> SymbolView {
        match self {
            PositionSymbol::Range(r) => SymbolView::Range(*r),
            PositionSymbol::Symbol { range, name, kind } => SymbolView::Symbol {
                range: *range,
                name: name@,
                kind: kind@,
            },
        }
    }
}

pub open spec fn symbols_view(v: Seq<PositionSymbol>) -> Seq<SymbolView> {
    v.map_values(|s: PositionSymbol| s@)
}

impl PositionSymbol {
    pub fn get_range(&self) -> (r: Range)
        ensures
            r == match self {
                PositionSymbol::Range(range) => *range,
                PositionSymbol::Symbol { range, .. } => *range,
            },
    {
        match self {
            PositionSymbol::Symbol { range, name: _, kind: _ } => *range,
            PositionSymbol::Range(range) => *range,
        }
    }
}

/// What a search looks for: the names of declared types, of methods, of
/// fields, or the places a type is used.
#[derive(Debug, Clone, Copy, PartialEq, Eq, Structural)]
pub enum ItemQuery {
    Classes,
    Methods,
    Fields,
    TypeUsages,
}

/// The kinds of node that declare a type.
pub open spec fn is_type_declaration(k: Seq<char>) -> bool {
    ||| k == "class_declaration"@
    ||| k == "interface_declaration"@
    ||| k == "enum_declaration"@
    ||| k == "annotation_type_declaration"@
    ||| k == "record_declaration"@
}

/// The node `i` is an identifier held in the field `field` of a node of
/// a kind that `parent_kind` accepts.
pub open spec fn held_in(ns: Seq<NodeView>, i: int, field: Seq<char>, parent_kind: spec_fn(Seq<char>) -> bool) -> bool {
    &&& ns[i].kind == "identifier"@
    &&& ns[i].field == Some(field)
    &&& raw_parent(ns, 0, i) matches Some(p) && parent_kind(ns[p].kind)
}

/// Whether the node `i` is one that `q` looks for: the name of a type
/// declaration; the name of a method declaration; the name of a variable
/// declarator that is the declarator of a field declaration; or a type
/// identifier, or an identifier that is the object of a field access or a
/// method invocation.
pub open spec fn captured(ns: Seq<NodeView>, i: int, q: ItemQuery) -> bool {
    match q {
        ItemQuery::Classes => held_in(ns, i, "name"@, |k: Seq<char>| is_type_declaration(k)),
        ItemQuery::Methods => held_in(ns, i, "name"@, |k: Seq<char>| k == "method_declaration"@),
        ItemQuery::Fields => {
            &&& held_in(ns, i, "name"@, |k: Seq<char>| k == "variable_declarator"@)
            &&& raw_parent(ns, 0, i) matches Some(p) && ns[p].field == Some("declarator"@) && (raw_parent(
                ns,
                0,
                p,
            ) matches Some(g) && ns[g].kind == "field_declaration"@)
        },
        ItemQuery::TypeUsages => {
            ||| ns[i].kind == "type_identifier"@
            ||| held_in(
                ns,
                i,
                "object"@,
                |k: Seq<char>| k == "field_access"@ || k == "method_invocation"@,
            )
        },
    }
}

/// What a captured node gives: with a name asked for, its range where its
/// text is that name; with none, its range, its text and its parent's kind.
pub open spec fn item_of(ns: Seq<NodeView>, b: Seq<u8>, i: int, name: Option<Seq<char>>) -> Seq<SymbolView> {
    match name {
        Some(n) => if text_or_empty(ns, b, i) == n {
            seq![SymbolView::Range(node_range(ns[i]))]
        } else {
            seq![]
        },
        None => match raw_parent(ns, 0, i) {
            Some(p) => seq![
                SymbolView::Symbol { range: node_range(ns[i]), name: text_or_empty(ns, b, i), kind: ns[p].kind },
            ],
            None => seq![],
        },
    }
}

/// What the first `n` nodes give, in the order of the tree.
pub open spec fn item_ranges(ns: Seq<NodeView>, b: Seq<u8>, q: ItemQuery, name: Option<Seq<char>>, n: int) -> Seq<
    SymbolView,
>
    decreases n,
{
    if n <= 0 {
        seq![]
    } else {
        item_ranges(ns, b, q, name, n - 1) + if captured(ns, n - 1, q) {
            item_of(ns, b, n - 1, name)
        } else {
            seq![]
        }
    }
}

/// What all the nodes of a tree give.
pub open spec fn all_items(ns: Seq<NodeView>, b: Seq<u8>, q: ItemQuery, name: Option<Seq<char>>) -> Seq<SymbolView> {
    item_ranges(ns, b, q, name, ns.len() as int)
}

/// The parent of the node `i` within the tree, if it has one.
fn parent_index(ns: &Vec<SyntaxNode>, i: usize) -> (r: Option<usize>)
    requires
        i < ns.len(),
    ensures
        match r {
            Some(k) => raw_parent(nodes_view(ns@), 0, i as int) == Some(k as int) && k < ns.len(),
            None => raw_parent(nodes_view(ns@), 0, i as int) is None,
        },
{
    proof {
        lemma_parent_from(nodes_view(ns@), i as int, i - 1);
    }
    raw_parent_exec(ns, 0, i)
}

fn field_is(ns: &Vec<SyntaxNode>, i: usize, field: &str) -> (b: bool)
    requires
        i < ns.len(),
    ensures
        b == (nodes_view(ns@)[i as int].field == Some(field@)),
{
    assert(nodes_view(ns@)[i as int] == ns@[i as int]@);
    match &ns[i].field {
        Some(f) => str_eq(f.as_str(), field),
        None => false,
    }
}

fn kind_eq(ns: &Vec<SyntaxNode>, i: usize, kind: &str) -> (b: bool)
    requires
        i < ns.len(),
    ensures
        b == (nodes_view(ns@)[i as int].kind == kind@),
{
    assert(nodes_view(ns@)[i as int] == ns@[i as int]@);
    str_eq(ns[i].kind.as_str(), kind)
}

fn is_type_declaration_exec(ns: &Vec<SyntaxNode>, i: usize) -> (b: bool)
    requires
        i < ns.len(),
    ensures
        b == is_type_declaration(nodes_view(ns@)[i as int].kind),
{
    kind_eq(ns, i, "class_declaration") || kind_eq(ns, i, "interface_declaration") || kind_eq(ns, i, "enum_declaration")
        || kind_eq(ns, i, "annotation_type_declaration") || kind_eq(ns, i, "record_declaration")
}

/// Whether the node `i` is one that `q` looks for (see `captured`).
fn captured_exec(ns: &Vec<SyntaxNode>, i: usize, q: ItemQuery) -> (b: bool)
    requires
        i < ns.len(),
    ensures
        b == captured(nodes_view(ns@), i as int, q),
{
    let ghost v = nodes_view(ns@);
    match q {
        ItemQuery::Classes => {
            if !(kind_eq(ns, i, "identifier") && field_is(ns, i, "name")) {
                return false;
            }
            match parent_index(ns, i) {
                Some(p) => is_type_declaration_exec(ns, p),
                None => false,
            }
        },
        ItemQuery::Methods => {
            if !(kind_eq(ns, i, "identifier") && field_is(ns, i, "name")) {
                return false;
            }
            match parent_index(ns, i) {
                Some(p) => kind_eq(ns, p, "method_declaration"),
                None => false,
            }
        },
        ItemQuery::Fields => {
            if !(kind_eq(ns, i, "identifier") && field_is(ns, i, "name")) {
                return false;
            }
            match parent_index(ns, i) {
                Some(p) => {
                    if !(kind_eq(ns, p, "variable_declarator") && field_is(ns, p, "declarator")) {
                        return false;
                    }
                    match parent_index(ns, p) {
                        Some(g) => kind_eq(ns, g, "field_declaration"),
                        None => false,
                    }
                },
                None => false,
            }
        },
        ItemQuery::TypeUsages => {
            if kind_eq(ns, i, "type_identifier") {
                return true;
            }
            if !(kind_eq(ns, i, "identifier") && field_is(ns, i, "object")) {
                return false;
            }
            match parent_index(ns, i) {
                Some(p) => kind_eq(ns, p, "field_access") || kind_eq(ns, p, "method_invocation"),
                None => false,
            }
        },
    }
}

/// The places in the tree `tree` of `bytes` that `query` looks for, in the
/// order of the tree (see `all_items`): with a name, only those whose text
/// is that name, as ranges; without, every one, with its text and its
/// parent's kind.
pub fn get_item_ranges(tree: &Vec<SyntaxNode>, bytes: &[u8], query: ItemQuery, name: Option<&str>) -> (r: Result<
    Vec<PositionSymbol>,
    PosionError,
>)
    requires
        well_placed(nodes_view(tree@), bytes@.len() as int),
    ensures
        r matches Ok(v) && symbols_view(v@) == all_items(
            nodes_view(tree@),
            bytes@,
            query,
            match name {
                Some(n) => Some(n@),
                None => None,
            },
        ),
{
    let ghost ns = nodes_view(tree@);
    let ghost nm: Option<Seq<char>> = match name {
        Some(n) => Some(n@),
        None => None,
    };
    let mut out: Vec<PositionSymbol> = Vec::new();
    let mut k: usize = 0;
    while k < tree.len()
        invariant
            k <= tree@.len(),
            ns == nodes_view(tree@),
            nm == match name {
                Some(n) => Some(n@),
                None => None,
            },
            well_placed(ns, bytes@.len() as int),
            symbols_view(out@) == item_ranges(ns, bytes@, query, nm, k as int),
        decreases tree.len() - k,
    {
        let ghost before = symbols_view(out@);
        if captured_exec(tree, k, query) {
            let cname = text_or_empty_exec(tree, bytes, k);
            let range = crate::variable::node_range_exec(tree, k);
            match name {
                Some(n) => {
                    if str_eq(cname.as_str(), n) {
                        out.push(PositionSymbol::Range(range));
                        assert(symbols_view(out@) =~= before + item_of(ns, bytes@, k as int, nm));
                    } else {
                        assert(symbols_view(out@) =~= before + item_of(ns, bytes@, k as int, nm));
                    }
                },
                None => {
                    match parent_index(tree, k) {
                        Some(p) => {
                            assert(nodes_view(tree@)[p as int] == tree@[p as int]@);
                            let kind = tree[p].kind.clone();
                            out.push(PositionSymbol::Symbol { range, name: cname, kind });
                            assert(symbols_view(out@) =~= before + item_of(ns, bytes@, k as int, nm));
                        },
                        None => {
                            assert(symbols_view(out@) =~= before + item_of(ns, bytes@, k as int, nm));
                        },
                    }
                },
            }
        } else {
            assert(symbols_view(out@) =~= before + Seq::<SymbolView>::empty());
        }
        k += 1;
    }
    Ok(out)
}

/// Parses `bytes` and looks for `query` in its tree (see `get_item_ranges`);
/// a text that does not parse gives an error.
fn find_items(bytes: &[u8], query: ItemQuery, name: Option<&str>) -> (r: Result<Vec<PositionSymbol>, PosionError>)
    ensures
        match spec_java_syntax(bytes@) {
            None => r == Err::<Vec<PositionSymbol>, PosionError>(PosionError::Treesitter(TreesitterError::NoNodeFound)),
            Some(ns) => r matches Ok(v) && symbols_view(v@) == all_items(
                ns,
                bytes@,
                query,
                match name {
                    Some(n) => Some(n@),
                    None => None,
                },
            ),
        },
{
    match parse_java_syntax(bytes) {
        None => Err(PosionError::Treesitter(TreesitterError::NoNodeFound)),
        Some(tree) => get_item_ranges(&tree, bytes, query, name),
    }
}

/// The ranges of the names of the types (classes, interfaces, enums,
/// annotation types, records) named `name` that `bytes` declares.
pub fn get_class_position(bytes: &[u8], name: &str) -> (r: Result<Vec<PositionSymbol>, PosionError>)
    ensures
        match spec_java_syntax(bytes@) {
            None => r == Err::<Vec<PositionSymbol>, PosionError>(PosionError::Treesitter(TreesitterError::NoNodeFound)),
            Some(ns) => r matches Ok(v) && symbols_view(v@) == all_items(ns, bytes@, ItemQuery::Classes, Some(name@)),
        },
{
    find_items(bytes, ItemQuery::Classes, Some(name))
}

/// The ranges of the names of the methods named `name` that `bytes`
/// declares.
pub fn get_method_positions(bytes: &[u8], name: &str) -> (r: Result<Vec<PositionSymbol>, PosionError>)
    ensures
        match spec_java_syntax(bytes@) {
            None => r == Err::<Vec<PositionSymbol>, PosionError>(PosionError::Treesitter(TreesitterError::NoNodeFound)),
            Some(ns) => r matches Ok(v) && symbols_view(v@) == all_items(ns, bytes@, ItemQuery::Methods, Some(name@)),
        },
{
    find_items(bytes, ItemQuery::Methods, Some(name))
}

/// The ranges of the names of the fields named `name` that `bytes`
/// declares.
pub fn get_field_positions(bytes: &[u8], name: &str) -> (r: Result<Vec<PositionSymbol>, PosionError>)
    ensures
        match spec_java_syntax(bytes@) {
            None => r == Err::<Vec<PositionSymbol>, PosionError>(PosionError::Treesitter(TreesitterError::NoNodeFound)),
            Some(ns) => r matches Ok(v) && symbols_view(v@) == all_items(ns, bytes@, ItemQuery::Fields, Some(name@)),
        },
{
    find_items(bytes, ItemQuery::Fields, Some(name))
}

/// Every type that `bytes` declares, with its name and the kind of its
/// declaration.
pub fn get_symbols(bytes: &[u8]) -> (r: Result<Vec<PositionSymbol>, PosionError>)
    ensures
        match spec_java_syntax(bytes@) {
            None => r == Err::<Vec<PositionSymbol>, PosionError>(PosionError::Treesitter(TreesitterError::NoNodeFound)),
            Some(ns) => r matches Ok(v) && symbols_view(v@) == all_items(ns, bytes@, ItemQuery::Classes, None),
        },
{
    find_items(bytes, ItemQuery::Classes, None)
}

/// The places in the tree `tree` of `bytes` where the type named
/// `query_class_name` is used: as a type, or as the object of a field
/// access or a method invocation.
pub fn get_type_usage(bytes: &[u8], query_class_name: &str, tree: &Vec<SyntaxNode>) -> (r: Result<
    Vec<PositionSymbol>,
    PosionError,
>)
    requires
        well_placed(nodes_view(tree@), bytes@.len() as int),
    ensures
        r matches Ok(v) && symbols_view(v@) == all_items(
            nodes_view(tree@),
            bytes@,
            ItemQuery::TypeUsages,
            Some(query_class_name@),
        ),
{
    get_item_ranges(tree, bytes, ItemQuery::TypeUsages, Some(query_class_name))
}

/// What a document symbol is: a field, a method or a class.
#[derive(Debug, PartialEq, Eq, Clone, Copy, Structural)]
pub enum SymbolKind {
    Field,
    Method,
    Class,
}

/// A symbol of a document: its name, its kind and its range.
#[derive(Debug, PartialEq)]
pub struct SymbolInformation {
    pub name: String,
    pub kind: SymbolKind,
    pub range: Range,
}

/// The kind of a symbol by the kind of node that declares it: a method
/// declaration a method, a class declaration a class, any other a field.
pub open spec fn symbol_kind(k: Seq<char>) -> SymbolKind {
    if k == "method_declaration"@ {
        SymbolKind::Method
    } else if k == "class_declaration"@ {
        SymbolKind::Class
    } else {
        SymbolKind::Field
    }
}

/// The symbols among `ss`, each with its name, the kind of its
/// declaration and its range; bare ranges give none.
pub open spec fn document_symbols(ss: Seq<SymbolView>) -> Seq<(Seq<char>, SymbolKind, Range)>
    decreases ss.len(),
{
    if ss.len() == 0 {
        seq![]
    } else {
        document_symbols(ss.drop_last()) + match ss.last() {
            SymbolView::Symbol { range, name, kind } => seq![(name, symbol_kind(kind), range)],
            SymbolView::Range(_) => seq![],
        }
    }
}

/// The symbols among `symbols` as document symbols, in order (see
/// `document_symbols`).
pub fn symbols_to_document_symbols(symbols: Vec<PositionSymbol>) -> (r: Vec<SymbolInformation>)
    ensures
        r@.map_values(|s: SymbolInformation| (s.name@, s.kind, s.range)) == document_symbols(symbols_view(symbols@)),
{
    let ghost all = symbols_view(symbols@);
    let mut out: Vec<SymbolInformation> = Vec::new();
    let mut k: usize = 0;
    assert(all.take(0) =~= Seq::<SymbolView>::empty());
    assert(out@.map_values(|s: SymbolInformation| (s.name@, s.kind, s.range)) =~= Seq::<(Seq<char>, SymbolKind, Range)>::empty());
    while k < symbols.len()
        invariant
            k <= symbols@.len(),
            all == symbols_view(symbols@),
            out@.map_values(|s: SymbolInformation| (s.name@, s.kind, s.range)) == document_symbols(all.take(k as int)),
        decreases symbols.len() - k,
    {
        let ghost before = out@;
        assert(all.take(k + 1).drop_last() =~= all.take(k as int));
        assert(all.take(k + 1).last() == symbols@[k as int]@);
        match &symbols[k] {
            PositionSymbol::Range(_) => {
                assert(document_symbols(all.take(k as int)) + Seq::<(Seq<char>, SymbolKind, Range)>::empty()
                    =~= document_symbols(all.take(k as int)));
            },
            PositionSymbol::Symbol { range, name, kind } => {
                let sk = if str_eq(kind.as_str(), "method_declaration") {
                    SymbolKind::Method
                } else if str_eq(kind.as_str(), "class_declaration") {
                    SymbolKind::Class
                } else {
                    SymbolKind::Field
                };
                let info = SymbolInformation { name: name.clone(), kind: sk, range: *range };
                out.push(info);
                assert(out@.map_values(|s: SymbolInformation| (s.name@, s.kind, s.range)) =~= before.map_values(
                    |s: SymbolInformation| (s.name@, s.kind, s.range),
                ).push((name@, symbol_kind(kind@), *range)));
            },
        }
        k += 1;
    }
    assert(all.take(k as int) =~= all);
    out
}

/// The kinds of node by which tree-sitter-java declares a type: a class,
/// an interface, an enum, an annotation type or a record.
pub open spec fn java_type_declaration_kind(k: Seq<char>) -> bool {
    k == "class_declaration"@ || k == "interface_declaration"@ || k == "enum_declaration"@
        || k == "annotation_type_declaration"@ || k == "record_declaration"@
}

/// What the first `n` nodes give holds what node `i` gives, for `i < n`.
proof fn lemma_item_ranges_keep(
    ns: Seq<NodeView>,
    b: Seq<u8>,
    q: ItemQuery,
    name: Option<Seq<char>>,
    i: int,
    n: int,
    x: SymbolView,
)
    requires
        0 <= i < n,
        captured(ns, i, q),
        item_of(ns, b, i, name).contains(x),
    ensures
        item_ranges(ns, b, q, name, n).contains(x),
    decreases n,
{
    let prev = item_ranges(ns, b, q, name, n - 1);
    let here = if captured(ns, n - 1, q) {
        item_of(ns, b, n - 1, name)
    } else {
        seq![]
    };
    assert(item_ranges(ns, b, q, name, n) == prev + here);
    if i < n - 1 {
        lemma_item_ranges_keep(ns, b, q, name, i, n - 1, x);
        let k = choose|k: int| 0 <= k < prev.len() && prev[k] == x;
        assert((prev + here)[k] == x);
    } else {
        let k = choose|k: int| 0 <= k < here.len() && here[k] == x;
        assert((prev + here)[prev.len() + k] == x);
    }
}

/// The name of every type declaration of a file, whatever kind of type it
/// declares (class, interface, enum, annotation type or record), is found
/// by the search for declared types: as a symbol with its text and the
/// declaration's kind, and as a range when its own name is asked for.
pub proof fn lemma_type_declarations_found(ns: Seq<NodeView>, b: Seq<u8>, i: int, p: int)
    requires
        0 <= i < ns.len(),
        ns[i].kind == "identifier"@,
        ns[i].field == Some("name"@),
        raw_parent(ns, 0, i) == Some(p),
        java_type_declaration_kind(ns[p].kind),
    ensures
        all_items(ns, b, ItemQuery::Classes, None).contains(
            SymbolView::Symbol { range: node_range(ns[i]), name: text_or_empty(ns, b, i), kind: ns[p].kind },
        ),
        all_items(ns, b, ItemQuery::Classes, Some(text_or_empty(ns, b, i))).contains(
            SymbolView::Range(node_range(ns[i])),
        ),
{
    assert(captured(ns, i, ItemQuery::Classes));
    let sym = SymbolView::Symbol { range: node_range(ns[i]), name: text_or_empty(ns, b, i), kind: ns[p].kind };
    assert(item_of(ns, b, i, None)[0] == sym);
    lemma_item_ranges_keep(ns, b, ItemQuery::Classes, None, i, ns.len() as int, sym);
    let r = SymbolView::Range(node_range(ns[i]));
    assert(item_of(ns, b, i, Some(text_or_empty(ns, b, i)))[0] == r);
    lemma_item_ranges_keep(ns, b, ItemQuery::Classes, Some(text_or_empty(ns, b, i)), i, ns.len() as int, r);
}

/// Every symbol that the search for declared types gives is the name of a
/// declaration of one of the kinds that declare a type.
pub proof fn lemma_type_symbols_are_declarations(ns: Seq<NodeView>, b: Seq<u8>, n: int)
    requires
        n <= ns.len(),
    ensures
        forall|k: int|
            0 <= k < item_ranges(ns, b, ItemQuery::Classes, None, n).len() ==> (
            #[trigger] item_ranges(ns, b, ItemQuery::Classes, None, n)[k] matches SymbolView::Symbol { kind, .. }
                && java_type_declaration_kind(kind)),
    decreases n,
{
    if n > 0 {
        lemma_type_symbols_are_declarations(ns, b, n - 1);
        let prev = item_ranges(ns, b, ItemQuery::Classes, None, n - 1);
        let here = if captured(ns, n - 1, ItemQuery::Classes) {
            item_of(ns, b, n - 1, None)
        } else {
            seq![]
        };
        assert(item_ranges(ns, b, ItemQuery::Classes, None, n) == prev + here);
        assert forall|k: int| 0 <= k < (prev + here).len() implies (#[trigger] (prev + here)[k] matches SymbolView::Symbol {
            kind,
            ..
        } && java_type_declaration_kind(kind)) by {
            if k < prev.len() {
                assert((prev + here)[k] == prev[k]);
            } else {
                assert((prev + here)[k] == here[k - prev.len()]);
            }
        }
    }
}

/// The name of every method declaration is found by the search for
/// methods, as a range when its own name is asked for.
pub proof fn lemma_method_declarations_found(ns: Seq<NodeView>, b: Seq<u8>, i: int, p: int)
    requires
        0 <= i < ns.len(),
        ns[i].kind == "identifier"@,
        ns[i].field == Some("name"@),
        raw_parent(ns, 0, i) == Some(p),
        ns[p].kind == "method_declaration"@,
    ensures
        all_items(ns, b, ItemQuery::Methods, Some(text_or_empty(ns, b, i))).contains(
            SymbolView::Range(node_range(ns[i])),
        ),
{
    assert(captured(ns, i, ItemQuery::Methods));
    let r = SymbolView::Range(node_range(ns[i]));
    assert(item_of(ns, b, i, Some(text_or_empty(ns, b, i)))[0] == r);
    lemma_item_ranges_keep(ns, b, ItemQuery::Methods, Some(text_or_empty(ns, b, i)), i, ns.len() as int, r);
}

/// The name of every variable declarator that declares a field is found
/// by the search for fields, as a range when its own name is asked for.
pub proof fn lemma_field_declarations_found(ns: Seq<NodeView>, b: Seq<u8>, i: int, p: int, g: int)
    requires
        0 <= i < ns.len(),
        ns[i].kind == "identifier"@,
        ns[i].field == Some("name"@),
        raw_parent(ns, 0, i) == Some(p),
        ns[p].kind == "variable_declarator"@,
        ns[p].field == Some("declarator"@),
        raw_parent(ns, 0, p) == Some(g),
        ns[g].kind == "field_declaration"@,
    ensures
        all_items(ns, b, ItemQuery::Fields, Some(text_or_empty(ns, b, i))).contains(
            SymbolView::Range(node_range(ns[i])),
        ),
{
    assert(captured(ns, i, ItemQuery::Fields));
    let r = SymbolView::Range(node_range(ns[i]));
    assert(item_of(ns, b, i, Some(text_or_empty(ns, b, i)))[0] == r);
    lemma_item_ranges_keep(ns, b, ItemQuery::Fields, Some(text_or_empty(ns, b, i)), i, ns.len() as int, r);
}

/// A document symbol is a method exactly where a method declaration
/// declares it, a class exactly where a class declaration does, and a
/// field everywhere else.
pub proof fn lemma_symbol_kinds(k: Seq<char>)
    ensures
        symbol_kind(k) == SymbolKind::Method <==> k == "method_declaration"@,
        symbol_kind(k) == SymbolKind::Class <==> k == "class_declaration"@,
        symbol_kind(k) == SymbolKind::Field <==> (k != "method_declaration"@ && k != "class_declaration"@),
{
    reveal_strlit("method_declaration");
    reveal_strlit("class_declaration");
    assert("method_declaration"@.len() != "class_declaration"@.len());
}

} // verus!
