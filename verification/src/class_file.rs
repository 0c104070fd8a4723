//! Loading the description of a class from its compiled class file: the
//! constant pool, fields, methods and attributes that `classfile_parser`
//! reads, turned into a `Class`.
use vstd::prelude::*;

use classfile_parser::attribute_info::AttributeInfo;
use classfile_parser::constant_info::ConstantInfo;

use crate::class::{
    char_at, after, class_names, field_type, method_descriptor, parse_field_descriptor, parse_method_descriptor,
};
use crate::dto::{
    fields_view, imports_view, jtypes_view, methods_view, params_view, supers_view, Access, Class,
    ClassError, ClassView, Field, FieldView, ImportUnit, ImportView, JType, JTypeView, Method,
    MethodView, ParamView, Parameter, SuperClass, SuperView,
};
use crate::loader::{SourceDestination, SourceView};
use crate::text::{
    chars_of, replace_char, replace_char_exec, rsplit_once, rsplit_once_exec, str_eq, string_of,
};

verus! {

/// An entry of the constant pool, as far as a class description reads it.
#[derive(Debug)]
pub enum PoolEntry {
    Utf8(String),
    Class(u16),
    Other,
}

pub enum PoolView {
    Utf8(Seq<char>),
    Class(u16),
    Other,
}

impl View for PoolEntry {
    type V = PoolView;

    open spec fn view(&self) -> PoolView {
        match self {
            PoolEntry::Utf8(s) => PoolView::Utf8(s@),
            PoolEntry::Class(k) => PoolView::Class(*k),
            PoolEntry::Other => PoolView::Other,
        }
    }
}

pub open spec fn pool_view(v: Seq<PoolEntry>) -> Seq<PoolView> {
    v.map_values(|e: PoolEntry| e@)
}

/// An attribute: the pool index of its name and its bytes.
pub type Attribute = (u16, Vec<u8>);

pub open spec fn attrs_view(v: Seq<Attribute>) -> Seq<(u16, Seq<u8>)> {
    v.map_values(|a: Attribute| (a.0, a.1@))
}

/// A method of the class file: its access flags, the pool indices of its
/// name and descriptor, and its attributes.
pub type MethodData = (u16, u16, u16, Vec<Attribute>);

pub open spec fn methods_data_view(v: Seq<MethodData>) -> Seq<(u16, u16, u16, Seq<(u16, Seq<u8>)>)> {
    v.map_values(|m: MethodData| (m.0, m.1, m.2, attrs_view(m.3@)))
}

/// A field of the class file: its access flags and the pool indices of its
/// name and descriptor.
pub type FieldData = (u16, u16, u16);

/// What a class file gives first: its constant pool, its access flags, the
/// pool indices of the class, its super class and its interfaces.
pub struct ClassHead {
    pub pool: Vec<PoolEntry>,
    pub access: u16,
    pub this_class: u16,
    pub super_class: u16,
    pub interfaces: Vec<u16>,
}

pub struct HeadView {
    pub pool: Seq<PoolView>,
    pub access: u16,
    pub this_class: u16,
    pub super_class: u16,
    pub interfaces: Seq<u16>,
}

impl View for ClassHead {
    type V = HeadView;

    open spec fn view(&self) -> HeadView {
        HeadView {
            pool: pool_view(self.pool@),
            access: self.access,
            this_class: self.this_class,
            super_class: self.super_class,
            interfaces: self.interfaces@,
        }
    }
}

/// What a class file gives next: its fields, its methods and its own
/// attributes.
pub struct ClassBody {
    pub fields: Vec<FieldData>,
    pub methods: Vec<MethodData>,
    pub attributes: Vec<Attribute>,
}

pub struct BodyView {
    pub fields: Seq<(u16, u16, u16)>,
    pub methods: Seq<(u16, u16, u16, Seq<(u16, Seq<u8>)>)>,
    pub attributes: Seq<(u16, Seq<u8>)>,
}

impl View for ClassBody {
    type V = BodyView;

    open spec fn view(&self) -> BodyView {
        BodyView {
            fields: self.fields@,
            methods: methods_data_view(self.methods@),
            attributes: attrs_view(self.attributes@),
        }
    }
}

/// A class file whose constant pool count is zero: `class_parser` takes one
/// from that count and overflows.
pub open spec fn pool_count_zero(b: Seq<u8>) -> bool {
    &&& b.len() >= 10
    &&& b[0] == 0xCAu8 && b[1] == 0xFEu8 && b[2] == 0xBAu8 && b[3] == 0xBEu8
    &&& b[8] == 0u8 && b[9] == 0u8
}

/// The constant pool and header that `class_parser` reads from a class file.
pub uninterp spec fn spec_class_head(bytes: Seq<u8>) -> Option<HeadView>;

/// Calls `classfile_parser::class_parser`; of the class file it reads, the
/// constant pool (UTF-8 strings, class entries, and nothing of the other
/// entries), the access flags, the class, super class and interfaces are
/// kept. What it gives is named `spec_class_head` of the bytes; `None` is a
/// file that it does not read.
#[verifier::external_body]
fn read_class_head(bytes: &[u8]) -> (r: Option<ClassHead>)
    requires
        !pool_count_zero(bytes@),
    ensures
        match r {
            Some(h) => spec_class_head(bytes@) == Some(h@),
            None => spec_class_head(bytes@) is None,
        },
{
    let (_, c) = classfile_parser::class_parser(bytes).ok()?;
    let pool = c.const_pool.iter().map(|e| match e {
        ConstantInfo::Utf8(u) => PoolEntry::Utf8(u.utf8_string.clone()),
        ConstantInfo::Class(k) => PoolEntry::Class(k.name_index),
        _ => PoolEntry::Other,
    }).collect();
    let (access, this_class, super_class) = (c.access_flags.bits(), c.this_class, c.super_class);
    Some(ClassHead { pool, access, this_class, super_class, interfaces: c.interfaces })
}

/// The fields, methods and attributes that `parse_class_from_reader` reads
/// from a class file.
pub uninterp spec fn spec_class_body(bytes: Seq<u8>) -> Option<BodyView>;

/// Calls `classfile_parser::parse_class_from_reader` on the bytes; of the
/// class file it reads, the fields (access flags, name and descriptor
/// indices), the methods (the same, and their attributes) and the class's
/// attributes are kept. What it gives is named `spec_class_body` of the
/// bytes; `None` is a file that it does not read.
#[verifier::external_body]
fn read_class_body(bytes: &[u8]) -> (r: Option<ClassBody>)
    requires
        !pool_count_zero(bytes@),
    ensures
        match r {
            Some(b) => spec_class_body(bytes@) == Some(b@),
            None => spec_class_body(bytes@) is None,
        },
{
    let c = classfile_parser::parse_class_from_reader(&mut &bytes[..], String::new()).ok()?;
    let at = |v: &[AttributeInfo]| -> Vec<Attribute> {
        v.iter().map(|a| (a.attribute_name_index, a.info.clone())).collect()
    };
    let fields = c.fields.iter().map(|f| (f.access_flags.bits(), f.name_index, f.descriptor_index)).collect();
    let methods = c.methods.iter().map(|m| (m.access_flags.bits(), m.name_index, m.descriptor_index, at(&m.attributes))).collect();
    Some(ClassBody { fields, methods, attributes: at(&c.attributes) })
}

/// The attributes of a Code attribute, as `code_attribute_parser` reads
/// them from its bytes.
pub uninterp spec fn spec_code_attributes(info: Seq<u8>) -> Option<Seq<(u16, Seq<u8>)>>;

/// Calls `classfile_parser::attribute_info::code_attribute_parser` on the
/// bytes of a Code attribute; of what it reads, the attributes are kept.
/// They are named `spec_code_attributes` of the bytes.
#[verifier::external_body]
fn code_attributes(info: &[u8]) -> (r: Option<Vec<Attribute>>)
    ensures
        match r {
            Some(v) => spec_code_attributes(info@) == Some(attrs_view(v@)),
            None => spec_code_attributes(info@) is None,
        },
{
    let (_, code) = classfile_parser::attribute_info::code_attribute_parser(info).ok()?;
    Some(code.attributes.iter().map(|a| (a.attribute_name_index, a.info.clone())).collect())
}

/// The pool indices of the parameter names in a MethodParameters
/// attribute, as `method_parameters_attribute_parser` reads them.
pub uninterp spec fn spec_method_parameters(info: Seq<u8>) -> Option<Seq<u16>>;

/// Calls `classfile_parser::attribute_info::method_parameters_attribute_parser`;
/// of each parameter it reads, the name index is kept. They are named
/// `spec_method_parameters` of the bytes.
#[verifier::external_body]
fn method_parameters(info: &[u8]) -> (r: Option<Vec<u16>>)
    ensures
        match r {
            Some(v) => spec_method_parameters(info@) == Some(v@),
            None => spec_method_parameters(info@) is None,
        },
{
    let (_, p) = classfile_parser::attribute_info::method_parameters_attribute_parser(info).ok()?;
    Some(p.parameters.iter().map(|p| p.name_index).collect())
}

/// The pool indices of the thrown classes in an Exceptions attribute, as
/// `exceptions_attribute_parser` reads them.
pub uninterp spec fn spec_exceptions(info: Seq<u8>) -> Option<Seq<u16>>;

/// Calls `classfile_parser::attribute_info::exceptions_attribute_parser`;
/// its exception table is named `spec_exceptions` of the bytes.
#[verifier::external_body]
fn exceptions(info: &[u8]) -> (r: Option<Vec<u16>>)
    ensures
        match r {
            Some(v) => spec_exceptions(info@) == Some(v@),
            None => spec_exceptions(info@) is None,
        },
{
    let (_, e) = classfile_parser::attribute_info::exceptions_attribute_parser(info).ok()?;
    Some(e.exception_table)
}

/// The string at pool index `index`, counted from one.
pub open spec fn lookup_string(pool: Seq<PoolView>, index: u16) -> Option<Seq<char>> {
    if index == 0 || index - 1 >= pool.len() {
        None
    } else {
        match pool[index - 1] {
            PoolView::Utf8(s) => Some(s),
            _ => None,
        }
    }
}

/// Whether reading the string at `index` stays within the pool (index zero
/// reads nothing).
pub open spec fn index_ok(pool: Seq<PoolView>, index: u16) -> bool {
    index == 0 || index - 1 < pool.len()
}

/// The name index of the class entry at pool index `index` (zero is taken
/// as one).
pub open spec fn class_entry(pool: Seq<PoolView>, index: u16) -> Option<u16> {
    let i: int = if index == 0 {
        0
    } else {
        index - 1
    };
    if i < pool.len() {
        match pool[i] {
            PoolView::Class(k) => Some(k),
            _ => None,
        }
    } else {
        None
    }
}

/// `s` after its last `/`.
pub open spec fn last_segment(s: Seq<char>) -> Seq<char> {
    match rsplit_once(s, seq!['/']) {
        Some((_, b)) => b,
        None => s,
    }
}

/// The simple name of the class entry at `index`.
pub open spec fn lookup_class_name(pool: Seq<PoolView>, index: u16) -> Option<Seq<char>> {
    match class_entry(pool, index) {
        Some(k) => match lookup_string(pool, k) {
            Some(s) => Some(last_segment(s)),
            None => None,
        },
        None => None,
    }
}

/// A class entry at `index`, if there is one, names a string.
pub open spec fn class_name_ok(pool: Seq<PoolView>, index: u16) -> bool {
    match class_entry(pool, index) {
        Some(k) => lookup_string(pool, k) is Some,
        None => true,
    }
}

/// Reading the name of a class entry at `index`, if there is one, stays
/// within the pool.
pub open spec fn class_index_ok(pool: Seq<PoolView>, index: u16) -> bool {
    match class_entry(pool, index) {
        Some(k) => index_ok(pool, k),
        None => true,
    }
}

/// Whether attribute `a` is named `name`.
pub open spec fn named(pool: Seq<PoolView>, a: (u16, Seq<u8>), name: Seq<char>) -> bool {
    lookup_string(pool, a.0) == Some(name)
}

/// The attributes of the first Code attribute among `attrs` that reads.
pub open spec fn code_of(pool: Seq<PoolView>, attrs: Seq<(u16, Seq<u8>)>) -> Option<
    Seq<(u16, Seq<u8>)>,
>
    decreases attrs.len(),
{
    if attrs.len() == 0 {
        None
    } else {
        let here = if named(pool, attrs[0], "Code"@) {
            spec_code_attributes(attrs[0].1)
        } else {
            None
        };
        match here {
            Some(c) => Some(c),
            None => code_of(pool, attrs.drop_first()),
        }
    }
}

/// The names looked up while searching `attrs` for the Code attribute stay
/// within the pool.
pub open spec fn code_search_ok(pool: Seq<PoolView>, attrs: Seq<(u16, Seq<u8>)>) -> bool
    decreases attrs.len(),
{
    if attrs.len() == 0 {
        true
    } else {
        &&& index_ok(pool, attrs[0].0)
        &&& (named(pool, attrs[0], "Code"@) && spec_code_attributes(attrs[0].1) is Some)
            || code_search_ok(pool, attrs.drop_first())
    }
}

/// The big-endian `u16` at index `i`.
pub open spec fn be_u16_at(b: Seq<u8>, i: int) -> u16 {
    (b[i] as int * 256 + b[i + 1] as int) as u16
}

/// The descriptor indices of the entries of a LocalVariableTable
/// attribute: a count, then per entry its start, length, name index,
/// descriptor index and slot, each two bytes. Too few bytes read nothing.
pub open spec fn local_variable_descriptors(info: Seq<u8>) -> Option<Seq<u16>> {
    if info.len() < 2 {
        None
    } else {
        let n = be_u16_at(info, 0) as int;
        if info.len() < 2 + 10 * n {
            None
        } else {
            Some(Seq::new(n as nat, |j: int| be_u16_at(info, 2 + 10 * j + 6)))
        }
    }
}

/// The descriptor indices of the local variables in the LocalVariableTable
/// attributes among `attrs`.
pub open spec fn lvt_indices(pool: Seq<PoolView>, attrs: Seq<(u16, Seq<u8>)>) -> Seq<u16>
    decreases attrs.len(),
{
    if attrs.len() == 0 {
        seq![]
    } else {
        let here = if named(pool, attrs[0], "LocalVariableTable"@) {
            match local_variable_descriptors(attrs[0].1) {
                Some(v) => v,
                None => seq![],
            }
        } else {
            seq![]
        };
        here + lvt_indices(pool, attrs.drop_first())
    }
}

/// The type of a field descriptor.
pub open spec fn descriptor_type(d: Seq<char>) -> JTypeView {
    field_type(d, char_at(d, 0), after(d, 0)).0
}

/// The class names that the descriptors at `indices` mention; an index
/// that names no string gives none.
pub open spec fn descriptor_classes(pool: Seq<PoolView>, indices: Seq<u16>) -> Seq<Seq<char>>
    decreases indices.len(),
{
    if indices.len() == 0 {
        seq![]
    } else {
        let here = match lookup_string(pool, indices[0]) {
            Some(d) => class_names(descriptor_type(d)),
            None => seq![],
        };
        here + descriptor_classes(pool, indices.drop_first())
    }
}

/// The classes that the local variables of a Code attribute use.
pub open spec fn code_classes(pool: Seq<PoolView>, code: Option<Seq<(u16, Seq<u8>)>>) -> Seq<Seq<char>> {
    match code {
        None => seq![],
        Some(c) => descriptor_classes(pool, lvt_indices(pool, c)),
    }
}

/// Reading the name of each of `attrs` stays within the pool.
pub open spec fn names_ok(pool: Seq<PoolView>, attrs: Seq<(u16, Seq<u8>)>) -> bool {
    forall|i: int| 0 <= i < attrs.len() ==> index_ok(pool, #[trigger] attrs[i].0)
}

/// Reading the string at each of `indices` stays within the pool.
pub open spec fn indices_ok(pool: Seq<PoolView>, indices: Seq<u16>) -> bool {
    forall|i: int| 0 <= i < indices.len() ==> index_ok(pool, #[trigger] indices[i])
}

/// The lookups made while reading the local variables of a Code attribute
/// stay within the pool.
pub open spec fn code_classes_ok(pool: Seq<PoolView>, code: Option<Seq<(u16, Seq<u8>)>>) -> bool {
    match code {
        None => true,
        Some(c) => names_ok(pool, c) && indices_ok(pool, lvt_indices(pool, c)),
    }
}

/// The parameter name indices of the MethodParameters attributes among
/// `attrs`.
pub open spec fn parameter_names(pool: Seq<PoolView>, attrs: Seq<(u16, Seq<u8>)>) -> Seq<u16>
    decreases attrs.len(),
{
    if attrs.len() == 0 {
        seq![]
    } else {
        let here = if named(pool, attrs[0], "MethodParameters"@) {
            match spec_method_parameters(attrs[0].1) {
                Some(v) => v,
                None => seq![],
            }
        } else {
            seq![]
        };
        here + parameter_names(pool, attrs.drop_first())
    }
}

/// The class thrown at pool index `ex`: the part after the last `/` of the
/// name of its class entry; a name without `/` gives none.
pub open spec fn thrown_class(pool: Seq<PoolView>, ex: u16) -> Seq<JTypeView> {
    match class_entry(pool, ex) {
        Some(k) => match lookup_string(pool, k) {
            Some(name) => match rsplit_once(name, seq!['/']) {
                Some((_, n)) => seq![JTypeView::Class(n)],
                None => seq![],
            },
            None => seq![],
        },
        None => seq![],
    }
}

pub open spec fn thrown_classes(pool: Seq<PoolView>, table: Seq<u16>) -> Seq<JTypeView>
    decreases table.len(),
{
    if table.len() == 0 {
        seq![]
    } else {
        thrown_class(pool, table[0]) + thrown_classes(pool, table.drop_first())
    }
}

/// The exception tables of the Exceptions attributes among `attrs`.
pub open spec fn exception_tables(pool: Seq<PoolView>, attrs: Seq<(u16, Seq<u8>)>) -> Seq<u16>
    decreases attrs.len(),
{
    if attrs.len() == 0 {
        seq![]
    } else {
        let here = if named(pool, attrs[0], "Exceptions"@) {
            match spec_exceptions(attrs[0].1) {
                Some(v) => v,
                None => seq![],
            }
        } else {
            seq![]
        };
        here + exception_tables(pool, attrs.drop_first())
    }
}

/// A name that is empty counts as none.
pub open spec fn nonempty(s: Option<Seq<char>>) -> Option<Seq<char>> {
    match s {
        Some(x) => if x.len() == 0 {
            None
        } else {
            Some(x)
        },
        None => None,
    }
}

/// The parameters of a method: its descriptor's types, the first of them
/// with the names that its MethodParameters give, one for one.
pub open spec fn method_parameters_of(pool: Seq<PoolView>, names: Seq<u16>, types: Seq<JTypeView>) -> Seq<
    ParamView,
> {
    Seq::new(
        types.len(),
        |i: int|
            ParamView {
                name: if i < names.len() {
                    nonempty(lookup_string(pool, names[i]))
                } else {
                    None
                },
                jtype: types[i],
            },
    )
}

/// The access of a method: one flag where its flags are exactly public,
/// private, protected, static, final, abstract or synthetic.
pub open spec fn method_access(bits: u16) -> u16 {
    if bits == 0x0001 {
        Access::Public
    } else if bits == 0x0002 {
        Access::Private
    } else if bits == 0x0004 {
        Access::Protected
    } else if bits == 0x0008 {
        Access::Static
    } else if bits == 0x0010 {
        Access::Final
    } else if bits == 0x0400 {
        Access::Abstract
    } else if bits == 0x1000 {
        Access::Synthetic
    } else {
        0
    }
}

/// The access of a field: one flag where its flags are exactly public,
/// private, protected, static, final or synthetic.
pub open spec fn field_access(bits: u16) -> u16 {
    if bits == 0x0001 {
        Access::Public
    } else if bits == 0x0002 {
        Access::Private
    } else if bits == 0x0004 {
        Access::Protected
    } else if bits == 0x0008 {
        Access::Static
    } else if bits == 0x0010 {
        Access::Final
    } else if bits == 0x1000 {
        Access::Synthetic
    } else {
        0
    }
}

/// The access of a class: one flag where its flags are exactly public,
/// final, super, interface, synthetic, annotation or enum.
pub open spec fn class_access(bits: u16) -> u16 {
    if bits == 0x0001 {
        Access::Public
    } else if bits == 0x0010 {
        Access::Final
    } else if bits == 0x0020 {
        Access::Super
    } else if bits == 0x0200 {
        Access::Interface
    } else if bits == 0x1000 {
        Access::Synthetic
    } else if bits == 0x2000 {
        Access::Annotation
    } else if bits == 0x4000 {
        Access::Enum
    } else {
        0
    }
}

pub type MethodV = (u16, u16, u16, Seq<(u16, Seq<u8>)>);

/// The method that entry `m` describes; none where its descriptor or name
/// is not a string.
pub open spec fn method_of(pool: Seq<PoolView>, m: MethodV) -> Option<MethodView> {
    match lookup_string(pool, m.2) {
        None => None,
        Some(desc) => {
            let (types, ret) = method_descriptor(desc);
            match lookup_string(pool, m.1) {
                None => None,
                Some(name) => Some(
                    MethodView {
                        access: method_access(m.0),
                        name,
                        parameters: method_parameters_of(pool, parameter_names(pool, m.3), types),
                        throws: thrown_classes(pool, exception_tables(pool, m.3)),
                        ret,
                        source: None,
                    },
                ),
            }
        },
    }
}

/// The lookups made while reading method `m` stay within the pool, and
/// no exception index is zero.
pub open spec fn method_ok(pool: Seq<PoolView>, m: MethodV) -> bool {
    &&& code_search_ok(pool, m.3)
    &&& code_classes_ok(pool, code_of(pool, m.3))
    &&& index_ok(pool, m.2)
    &&& lookup_string(pool, m.2) is Some ==> {
        &&& names_ok(pool, m.3)
        &&& indices_ok(pool, parameter_names(pool, m.3))
        &&& forall|i: int|
            0 <= i < exception_tables(pool, m.3).len() ==> #[trigger] exception_tables(pool, m.3)[i]
                != 0 && class_index_ok(pool, exception_tables(pool, m.3)[i])
        &&& index_ok(pool, m.1)
    }
}

/// The field that entry `f` describes; none where its name or descriptor
/// is not a string.
pub open spec fn field_of(pool: Seq<PoolView>, f: (u16, u16, u16)) -> Option<FieldView> {
    match lookup_string(pool, f.1) {
        None => None,
        Some(name) => match lookup_string(pool, f.2) {
            None => None,
            Some(d) => Some(
                FieldView { access: field_access(f.0), name, jtype: descriptor_type(d), source: None },
            ),
        },
    }
}

pub open spec fn field_ok(pool: Seq<PoolView>, f: (u16, u16, u16)) -> bool {
    &&& index_ok(pool, f.1)
    &&& lookup_string(pool, f.1) is Some ==> index_ok(pool, f.2)
}

/// The class names that the parameters of a method mention.
pub open spec fn param_classes(ps: Seq<ParamView>) -> Seq<Seq<char>>
    decreases ps.len(),
{
    if ps.len() == 0 {
        seq![]
    } else {
        class_names(ps[0].jtype) + param_classes(ps.drop_first())
    }
}

/// The classes that method `m` uses: those of its local variables, then
/// those of its parameters and return type.
pub open spec fn method_classes(pool: Seq<PoolView>, m: MethodV) -> Seq<Seq<char>> {
    code_classes(pool, code_of(pool, m.3)) + match method_of(pool, m) {
        Some(mv) => param_classes(mv.parameters) + class_names(mv.ret),
        None => seq![],
    }
}

pub open spec fn methods_classes(pool: Seq<PoolView>, ms: Seq<MethodV>) -> Seq<Seq<char>>
    decreases ms.len(),
{
    if ms.len() == 0 {
        seq![]
    } else {
        method_classes(pool, ms[0]) + methods_classes(pool, ms.drop_first())
    }
}

pub open spec fn fields_classes(pool: Seq<PoolView>, fs: Seq<(u16, u16, u16)>) -> Seq<Seq<char>>
    decreases fs.len(),
{
    if fs.len() == 0 {
        seq![]
    } else {
        (match field_of(pool, fs[0]) {
            Some(f) => class_names(f.jtype),
            None => seq![],
        }) + fields_classes(pool, fs.drop_first())
    }
}

/// The methods that read, but for constructors.
pub open spec fn kept_methods(pool: Seq<PoolView>, ms: Seq<MethodV>) -> Seq<MethodView>
    decreases ms.len(),
{
    if ms.len() == 0 {
        seq![]
    } else {
        (match method_of(pool, ms[0]) {
            Some(m) => if m.name == "<init>"@ {
                seq![]
            } else {
                seq![m]
            },
            None => seq![],
        }) + kept_methods(pool, ms.drop_first())
    }
}

/// The fields that read.
pub open spec fn kept_fields(pool: Seq<PoolView>, fs: Seq<(u16, u16, u16)>) -> Seq<FieldView>
    decreases fs.len(),
{
    if fs.len() == 0 {
        seq![]
    } else {
        (match field_of(pool, fs[0]) {
            Some(f) => seq![f],
            None => seq![],
        }) + kept_fields(pool, fs.drop_first())
    }
}

/// The names of `s` other than `x`, each once, in the order they first
/// occur.
pub open spec fn distinct_without(s: Seq<Seq<char>>, x: Seq<char>) -> Seq<Seq<char>>
    decreases s.len(),
{
    if s.len() == 0 {
        seq![]
    } else {
        let u = distinct_without(s.drop_last(), x);
        let y = s.last();
        if y == x || u.contains(y) {
            u
        } else {
            u.push(y)
        }
    }
}

/// Where the source of the class lies: under a folder, the class path with
/// the separator for each `.` and `.java` after it; a given path; or
/// nowhere.
pub open spec fn class_source(source: SourceView, class_path: Seq<char>, sep: char) -> Seq<char> {
    match source {
        SourceView::RelativeInFolder(e) => e + seq![sep] + replace_char(class_path, '.', sep)
            + ".java"@,
        SourceView::Here(e) => e,
        SourceView::Empty => seq![],
    }
}

/// The lookups made while reading the class file stay within the pool, no
/// exception index is zero, and every class entry read names a string; the
/// class itself has a name.
pub open spec fn class_file_ok(head: HeadView, body: BodyView) -> bool {
    let pool = head.pool;
    &&& code_search_ok(pool, body.attributes)
    &&& code_classes_ok(pool, code_of(pool, body.attributes))
    &&& forall|i: int| 0 <= i < body.methods.len() ==> method_ok(pool, #[trigger] body.methods[i])
    &&& forall|i: int| 0 <= i < body.fields.len() ==> field_ok(pool, #[trigger] body.fields[i])
    &&& class_name_ok(pool, head.this_class)
    &&& lookup_class_name(pool, head.this_class) is Some
    &&& class_name_ok(pool, head.super_class)
    &&& forall|i: int| 0 <= i < head.interfaces.len() ==> class_name_ok(pool, #[trigger] head.interfaces[i])
}

/// The class that a class file describes, for class path `class_path`: its
/// name from the class entry, its package the class path without that name
/// and the `.` before it; its imports the package and then every class
/// that its local variables, methods and fields use (other than itself,
/// each once); its methods but constructors, its fields; its super class
/// (none for `Object`) and interfaces by their simple names.
pub open spec fn class_from(
    head: HeadView,
    body: BodyView,
    class_path: Seq<char>,
    source: SourceView,
    sep: char,
) -> ClassView {
    let pool = head.pool;
    let used = code_classes(pool, code_of(pool, body.attributes)) + methods_classes(pool, body.methods)
        + fields_classes(pool, body.fields);
    let name = lookup_class_name(pool, head.this_class)->0;
    let package = crate::text::trim_end_matches(crate::text::trim_end_matches(class_path, name), "."@);
    ClassView {
        class_path,
        source: class_source(source, class_path, sep),
        access: class_access(head.access),
        imports: seq![ImportView::Package(package)] + distinct_without(used, class_path).map_values(
            |c: Seq<char>| ImportView::Class(c),
        ),
        name,
        methods: kept_methods(pool, body.methods),
        fields: kept_fields(pool, body.fields),
        super_class: match lookup_class_name(pool, head.super_class) {
            Some(c) => if c == "Object"@ {
                SuperView::Empty
            } else {
                SuperView::Name(c)
            },
            None => SuperView::Empty,
        },
        super_interfaces: head.interfaces.map_values(
            |i: u16|
                match lookup_class_name(pool, i) {
                    Some(c) => SuperView::Name(c),
                    None => SuperView::Empty,
                },
        ),
    }
}

fn lookup_string_exec(pool: &Vec<PoolEntry>, index: u16) -> (r: Option<String>)
    ensures
        crate::dto::opt_view(r) == lookup_string(pool_view(pool@), index),
{
    if index == 0 || (index - 1) as usize >= pool.len() {
        return None;
    }
    let i = (index - 1) as usize;
    assert(pool_view(pool@)[i as int] == pool@[i as int]@);
    match &pool[i] {
        PoolEntry::Utf8(s) => Some(s.clone()),
        _ => None,
    }
}

fn class_entry_exec(pool: &Vec<PoolEntry>, index: u16) -> (r: Option<u16>)
    ensures
        r == class_entry(pool_view(pool@), index),
{
    let i: usize = if index == 0 {
        0
    } else {
        (index - 1) as usize
    };
    if i < pool.len() {
        assert(pool_view(pool@)[i as int] == pool@[i as int]@);
        match &pool[i] {
            PoolEntry::Class(k) => Some(*k),
            _ => None,
        }
    } else {
        None
    }
}

fn last_segment_exec(s: &str) -> (r: String)
    ensures
        r@ == last_segment(s@),
{
    let v = chars_of(s);
    let mut slash: Vec<char> = Vec::new();
    slash.push('/');
    assert(slash@ =~= seq!['/']);
    match rsplit_once_exec(&v, &slash) {
        Some((_, b)) => {
            assert(b@.subrange(0, b@.len() as int) =~= b@);
            string_of(&b, 0, b.len())
        },
        None => {
            assert(v@.subrange(0, v@.len() as int) =~= v@);
            string_of(&v, 0, v.len())
        },
    }
}

fn lookup_class_name_exec(pool: &Vec<PoolEntry>, index: u16) -> (r: Option<String>)
    ensures
        crate::dto::opt_view(r) == lookup_class_name(pool_view(pool@), index),
{
    match class_entry_exec(pool, index) {
        Some(k) => match lookup_string_exec(pool, k) {
            Some(s) => Some(last_segment_exec(s.as_str())),
            None => None,
        },
        None => None,
    }
}

fn is_named(pool: &Vec<PoolEntry>, a: &Attribute, name: &str) -> (b: bool)
    ensures
        b == named(pool_view(pool@), (a.0, a.1@), name@),
{
    match lookup_string_exec(pool, a.0) {
        Some(s) => str_eq(s.as_str(), name),
        None => false,
    }
}

fn parse_code_attribute(pool: &Vec<PoolEntry>, attrs: &Vec<Attribute>) -> (r: Option<Vec<Attribute>>)
    ensures
        match r {
            Some(v) => code_of(pool_view(pool@), attrs_view(attrs@)) == Some(attrs_view(v@)),
            None => code_of(pool_view(pool@), attrs_view(attrs@)) is None,
        },
{
    let ghost pv = pool_view(pool@);
    let ghost av = attrs_view(attrs@);
    let mut k: usize = 0;
    assert(av.skip(0) =~= av);
    while k < attrs.len()
        invariant
            k <= attrs.len(),
            pv == pool_view(pool@),
            av == attrs_view(attrs@),
            code_of(pv, av) == code_of(pv, av.skip(k as int)),
        decreases attrs.len() - k,
    {
        assert(av.skip(k as int)[0] == (attrs@[k as int].0, attrs@[k as int].1@));
        assert(av.skip(k as int).drop_first() =~= av.skip(k + 1));
        let a = &attrs[k];
        if is_named(pool, a, "Code") {
            match code_attributes(a.1.as_slice()) {
                Some(v) => {
                    return Some(v);
                },
                None => {},
            }
        }
        k += 1;
    }
    None
}

fn be_u16_exec(b: &Vec<u8>, i: usize) -> (r: u16)
    requires
        i + 1 < b.len(),
    ensures
        r == be_u16_at(b@, i as int),
{
    let hi = b[i] as u16;
    let lo = b[i + 1] as u16;
    hi * 256 + lo
}

fn local_variable_descriptors_exec(info: &Vec<u8>) -> (r: Option<Vec<u16>>)
    ensures
        match r {
            Some(v) => local_variable_descriptors(info@) == Some(v@),
            None => local_variable_descriptors(info@) is None,
        },
{
    if info.len() < 2 {
        return None;
    }
    let n = be_u16_exec(info, 0) as usize;
    if info.len() - 2 < 10 * n {
        return None;
    }
    let mut out: Vec<u16> = Vec::new();
    let mut j: usize = 0;
    while j < n
        invariant
            j <= n,
            n == be_u16_at(info@, 0),
            2 + 10 * n <= info.len(),
            out@.len() == j,
            forall|t: int| 0 <= t < j ==> out@[t] == be_u16_at(info@, 2 + 10 * t + 6),
        decreases n - j,
    {
        out.push(be_u16_exec(info, 2 + 10 * j + 6));
        j += 1;
    }
    assert(out@ =~= Seq::new(n as nat, |t: int| be_u16_at(info@, 2 + 10 * t + 6)));
    Some(out)
}

fn parameter_names_exec(pool: &Vec<PoolEntry>, attrs: &Vec<Attribute>) -> (r: Vec<u16>)
    ensures
        r@ == parameter_names(pool_view(pool@), attrs_view(attrs@)),
{
    let ghost pv = pool_view(pool@);
    let ghost av = attrs_view(attrs@);
    let mut out: Vec<u16> = Vec::new();
    let mut k: usize = 0;
    assert(av.skip(0) =~= av);
    assert(out@ + parameter_names(pv, av.skip(0)) =~= parameter_names(pv, av));
    while k < attrs.len()
        invariant
            k <= attrs.len(),
            pv == pool_view(pool@),
            av == attrs_view(attrs@),
            parameter_names(pv, av) == out@ + parameter_names(pv, av.skip(k as int)),
        decreases attrs.len() - k,
    {
        assert(av.skip(k as int)[0] == (attrs@[k as int].0, attrs@[k as int].1@));
        assert(av.skip(k as int).drop_first() =~= av.skip(k + 1));
        let ghost before = out@;
        let a = &attrs[k];
        if is_named(pool, a, "MethodParameters") {
            match method_parameters(a.1.as_slice()) {
                Some(v) => {
                    let mut v = v;
                    out.append(&mut v);
                },
                None => {},
            }
        }
        let ghost here = out@.skip(before.len() as int);
        assert(out@ =~= before + here);
        k += 1;
        assert(before + (here + parameter_names(pv, av.skip(k as int))) =~= out@ + parameter_names(pv, av.skip(k as int)));
    }
    assert(av.skip(k as int) =~= Seq::<(u16, Seq<u8>)>::empty());
    assert(out@ + Seq::<u16>::empty() =~= out@);
    out
}

fn exception_tables_exec(pool: &Vec<PoolEntry>, attrs: &Vec<Attribute>) -> (r: Vec<u16>)
    ensures
        r@ == exception_tables(pool_view(pool@), attrs_view(attrs@)),
{
    let ghost pv = pool_view(pool@);
    let ghost av = attrs_view(attrs@);
    let mut out: Vec<u16> = Vec::new();
    let mut k: usize = 0;
    assert(av.skip(0) =~= av);
    assert(out@ + exception_tables(pv, av.skip(0)) =~= exception_tables(pv, av));
    while k < attrs.len()
        invariant
            k <= attrs.len(),
            pv == pool_view(pool@),
            av == attrs_view(attrs@),
            exception_tables(pv, av) == out@ + exception_tables(pv, av.skip(k as int)),
        decreases attrs.len() - k,
    {
        assert(av.skip(k as int)[0] == (attrs@[k as int].0, attrs@[k as int].1@));
        assert(av.skip(k as int).drop_first() =~= av.skip(k + 1));
        let ghost before = out@;
        let a = &attrs[k];
        if is_named(pool, a, "Exceptions") {
            match exceptions(a.1.as_slice()) {
                Some(v) => {
                    let mut v = v;
                    out.append(&mut v);
                },
                None => {},
            }
        }
        let ghost here = out@.skip(before.len() as int);
        assert(out@ =~= before + here);
        k += 1;
        assert(before + (here + exception_tables(pv, av.skip(k as int))) =~= out@ + exception_tables(pv, av.skip(k as int)));
    }
    assert(av.skip(k as int) =~= Seq::<(u16, Seq<u8>)>::empty());
    assert(out@ + Seq::<u16>::empty() =~= out@);
    out
}

fn lvt_descriptors_bytes(info: &[u8]) -> (r: Option<Vec<u16>>)
    ensures
        match r {
            Some(v) => local_variable_descriptors(info@) == Some(v@),
            None => local_variable_descriptors(info@) is None,
        },
{
    let mut v: Vec<u8> = Vec::new();
    let mut k: usize = 0;
    while k < info.len()
        invariant
            k <= info.len(),
            v@ == info@.take(k as int),
        decreases info.len() - k,
    {
        v.push(info[k]);
        k += 1;
        assert(v@ =~= info@.take(k as int));
    }
    assert(info@.take(k as int) =~= info@);
    local_variable_descriptors_exec(&v)
}

fn lvt_indices_exec(pool: &Vec<PoolEntry>, attrs: &Vec<Attribute>) -> (r: Vec<u16>)
    ensures
        r@ == lvt_indices(pool_view(pool@), attrs_view(attrs@)),
{
    let ghost pv = pool_view(pool@);
    let ghost av = attrs_view(attrs@);
    let mut out: Vec<u16> = Vec::new();
    let mut k: usize = 0;
    assert(av.skip(0) =~= av);
    assert(out@ + lvt_indices(pv, av.skip(0)) =~= lvt_indices(pv, av));
    while k < attrs.len()
        invariant
            k <= attrs.len(),
            pv == pool_view(pool@),
            av == attrs_view(attrs@),
            lvt_indices(pv, av) == out@ + lvt_indices(pv, av.skip(k as int)),
        decreases attrs.len() - k,
    {
        assert(av.skip(k as int)[0] == (attrs@[k as int].0, attrs@[k as int].1@));
        assert(av.skip(k as int).drop_first() =~= av.skip(k + 1));
        let ghost before = out@;
        let a = &attrs[k];
        if is_named(pool, a, "LocalVariableTable") {
            match lvt_descriptors_bytes(a.1.as_slice()) {
                Some(v) => {
                    let mut v = v;
                    out.append(&mut v);
                },
                None => {},
            }
        }
        let ghost here = out@.skip(before.len() as int);
        assert(out@ =~= before + here);
        k += 1;
        assert(before + (here + lvt_indices(pv, av.skip(k as int))) =~= out@ + lvt_indices(pv, av.skip(k as int)));
    }
    assert(av.skip(k as int) =~= Seq::<(u16, Seq<u8>)>::empty());
    assert(out@ + Seq::<u16>::empty() =~= out@);
    out
}
pub open spec fn names_view(v: Seq<String>) -> Seq<Seq<char>> {
    v.map_values(|s: String| s@)
}

fn descriptor_classes_exec(pool: &Vec<PoolEntry>, indices: &Vec<u16>, out: &mut Vec<String>)
    ensures
        names_view(final(out)@) == names_view(old(out)@) + descriptor_classes(
            pool_view(pool@),
            indices@,
        ),
{
    let ghost pv = pool_view(pool@);
    let ghost start = names_view(out@);
    let mut k: usize = 0;
    assert(indices@.skip(0) =~= indices@);
    assert(names_view(out@) + descriptor_classes(pv, indices@.skip(0)) =~= start + descriptor_classes(pv, indices@));
    while k < indices.len()
        invariant
            k <= indices.len(),
            pv == pool_view(pool@),
            start + descriptor_classes(pv, indices@) == names_view(out@) + descriptor_classes(
                pv,
                indices@.skip(k as int),
            ),
        decreases indices.len() - k,
    {
        assert(indices@.skip(k as int)[0] == indices@[k as int]);
        assert(indices@.skip(k as int).drop_first() =~= indices@.skip(k + 1));
        let ghost before = names_view(out@);
        match lookup_string_exec(pool, indices[k]) {
            Some(d) => {
                match parse_field_descriptor(d.as_str()) {
                    Some(t) => {
                        crate::class::collect_class_names(&t, out);
                    },
                    None => {},
                }
            },
            None => {},
        }
        let ghost here = names_view(out@).skip(before.len() as int);
        assert(names_view(out@) =~= before + here);
        k += 1;
        assert(before + (here + descriptor_classes(pv, indices@.skip(k as int))) =~= names_view(out@)
            + descriptor_classes(pv, indices@.skip(k as int)));
    }
    assert(indices@.skip(k as int) =~= Seq::<u16>::empty());
    assert(names_view(out@) + Seq::<Seq<char>>::empty() =~= names_view(out@));
}

fn parse_used_classes(pool: &Vec<PoolEntry>, code: &Option<Vec<Attribute>>, out: &mut Vec<String>)
    ensures
        names_view(final(out)@) == names_view(old(out)@) + code_classes(
            pool_view(pool@),
            match code {
                Some(v) => Some(attrs_view(v@)),
                None => None,
            },
        ),
{
    match code {
        Some(c) => {
            let indices = lvt_indices_exec(pool, c);
            descriptor_classes_exec(pool, &indices, out);
        },
        None => {
            assert(names_view(out@) + Seq::<Seq<char>>::empty() =~= names_view(out@));
        },
    }
}

fn thrown_classes_exec(pool: &Vec<PoolEntry>, table: &Vec<u16>) -> (r: Vec<JType>)
    ensures
        jtypes_view(r@) == thrown_classes(pool_view(pool@), table@),
{
    let ghost pv = pool_view(pool@);
    let mut out: Vec<JType> = Vec::new();
    let mut k: usize = 0;
    assert(table@.skip(0) =~= table@);
    assert(jtypes_view(out@) + thrown_classes(pv, table@.skip(0)) =~= thrown_classes(pv, table@));
    while k < table.len()
        invariant
            k <= table.len(),
            pv == pool_view(pool@),
            thrown_classes(pv, table@) == jtypes_view(out@) + thrown_classes(pv, table@.skip(k as int)),
        decreases table.len() - k,
    {
        assert(table@.skip(k as int)[0] == table@[k as int]);
        assert(table@.skip(k as int).drop_first() =~= table@.skip(k + 1));
        let ghost before = jtypes_view(out@);
        let ghost old_out = out@;
        match class_entry_exec(pool, table[k]) {
            Some(c) => match lookup_string_exec(pool, c) {
                Some(name) => {
                    let v = chars_of(name.as_str());
                    let mut slash: Vec<char> = Vec::new();
                    slash.push('/');
                    assert(slash@ =~= seq!['/']);
                    match rsplit_once_exec(&v, &slash) {
                        Some((_, n)) => {
                            let cls = string_of(&n, 0, n.len());
                            assert(n@.subrange(0, n@.len() as int) =~= n@);
                            let t = JType::Class(cls);
                            assert(t@ == JTypeView::Class(n@));
                            out.push(t);
                            assert(out@.drop_last() =~= old_out);
                            assert(jtypes_view(out@) == jtypes_view(old_out).push(JTypeView::Class(n@)));
                            assert(jtypes_view(out@) =~= before + seq![JTypeView::Class(n@)]);
                        },
                        None => {
                            assert(jtypes_view(out@) =~= before + Seq::<JTypeView>::empty());
                        },
                    }
                },
                None => {
                    assert(jtypes_view(out@) =~= before + Seq::<JTypeView>::empty());
                },
            },
            None => {
                assert(jtypes_view(out@) =~= before + Seq::<JTypeView>::empty());
            },
        }
        let ghost here = thrown_class(pv, table@[k as int]);
        assert(jtypes_view(out@) =~= before + here);
        k += 1;
        assert(before + (here + thrown_classes(pv, table@.skip(k as int))) =~= jtypes_view(out@)
            + thrown_classes(pv, table@.skip(k as int)));
    }
    assert(table@.skip(k as int) =~= Seq::<u16>::empty());
    assert(jtypes_view(out@) + Seq::<JTypeView>::empty() =~= jtypes_view(out@));
    out
}

fn method_parameters_exec(pool: &Vec<PoolEntry>, names: &Vec<u16>, types: &Vec<JType>) -> (r: Vec<
    Parameter,
>)
    ensures
        params_view(r@) == method_parameters_of(pool_view(pool@), names@, jtypes_view(types@)),
{
    let ghost pv = pool_view(pool@);
    let ghost want = method_parameters_of(pv, names@, jtypes_view(types@));
    proof {
        crate::dto::lemma_jtypes_view_len(types@);
    }
    let mut out: Vec<Parameter> = Vec::new();
    let mut i: usize = 0;
    while i < types.len()
        invariant
            i <= types.len(),
            pv == pool_view(pool@),
            want == method_parameters_of(pv, names@, jtypes_view(types@)),
            jtypes_view(types@).len() == types@.len(),
            forall|t: int| 0 <= t < types@.len() ==> #[trigger] jtypes_view(types@)[t] == types@[t]@,
            out@.len() == i,
            forall|t: int| 0 <= t < i ==> #[trigger] out@[t]@ == want[t],
        decreases types.len() - i,
    {
        let name = if i < names.len() {
            match lookup_string_exec(pool, names[i]) {
                Some(s) => if s.as_str().unicode_len() == 0 {
                    None
                } else {
                    Some(s)
                },
                None => None,
            }
        } else {
            None
        };
        out.push(Parameter { name, jtype: types[i].clone() });
        i += 1;
    }
    assert(params_view(out@) =~= want);
    out
}

fn parse_method_access(bits: u16) -> (r: u16)
    ensures
        r == method_access(bits),
{
    if bits == 0x0001 {
        Access::Public
    } else if bits == 0x0002 {
        Access::Private
    } else if bits == 0x0004 {
        Access::Protected
    } else if bits == 0x0008 {
        Access::Static
    } else if bits == 0x0010 {
        Access::Final
    } else if bits == 0x0400 {
        Access::Abstract
    } else if bits == 0x1000 {
        Access::Synthetic
    } else {
        0
    }
}

fn parse_field_access(bits: u16) -> (r: u16)
    ensures
        r == field_access(bits),
{
    if bits == 0x0001 {
        Access::Public
    } else if bits == 0x0002 {
        Access::Private
    } else if bits == 0x0004 {
        Access::Protected
    } else if bits == 0x0008 {
        Access::Static
    } else if bits == 0x0010 {
        Access::Final
    } else if bits == 0x1000 {
        Access::Synthetic
    } else {
        0
    }
}

fn parse_class_access(bits: u16) -> (r: u16)
    ensures
        r == class_access(bits),
{
    if bits == 0x0001 {
        Access::Public
    } else if bits == 0x0010 {
        Access::Final
    } else if bits == 0x0020 {
        Access::Super
    } else if bits == 0x0200 {
        Access::Interface
    } else if bits == 0x1000 {
        Access::Synthetic
    } else if bits == 0x2000 {
        Access::Annotation
    } else if bits == 0x4000 {
        Access::Enum
    } else {
        0
    }
}

pub open spec fn method_data_view(m: MethodData) -> MethodV {
    (m.0, m.1, m.2, attrs_view(m.3@))
}

fn parse_method(pool: &Vec<PoolEntry>, m: &MethodData) -> (r: Option<Method>)
    ensures
        match method_of(pool_view(pool@), method_data_view(*m)) {
            Some(x) => r matches Some(y) && y@ == x,
            None => r is None,
        },
{
    let desc = match lookup_string_exec(pool, m.2) {
        Some(d) => d,
        None => {
            return None;
        },
    };
    let (types, ret) = parse_method_descriptor(desc.as_str());
    let name = match lookup_string_exec(pool, m.1) {
        Some(n) => n,
        None => {
            return None;
        },
    };
    let names = parameter_names_exec(pool, &m.3);
    let parameters = method_parameters_exec(pool, &names, &types);
    let table = exception_tables_exec(pool, &m.3);
    let throws = thrown_classes_exec(pool, &table);
    Some(
        Method {
            access: Access::from_bits(parse_method_access(m.0)),
            name,
            parameters,
            throws,
            ret,
            source: None,
        },
    )
}

fn parse_field(pool: &Vec<PoolEntry>, f: &FieldData) -> (r: Option<Field>)
    ensures
        match field_of(pool_view(pool@), *f) {
            Some(x) => r matches Some(y) && y@ == x,
            None => r is None,
        },
{
    let name = match lookup_string_exec(pool, f.1) {
        Some(n) => n,
        None => {
            return None;
        },
    };
    let d = match lookup_string_exec(pool, f.2) {
        Some(d) => d,
        None => {
            return None;
        },
    };
    let jtype = match parse_field_descriptor(d.as_str()) {
        Some(t) => t,
        None => JType::Void,
    };
    Some(Field { access: Access::from_bits(parse_field_access(f.0)), name, jtype, source: None })
}

fn collect_param_classes(ps: &Vec<Parameter>, out: &mut Vec<String>)
    ensures
        names_view(final(out)@) == names_view(old(out)@) + param_classes(params_view(ps@)),
{
    let ghost start = names_view(out@);
    let ghost pv = params_view(ps@);
    let mut k: usize = 0;
    assert(pv.skip(0) =~= pv);
    assert(names_view(out@) + param_classes(pv.skip(0)) =~= start + param_classes(pv));
    while k < ps.len()
        invariant
            k <= ps.len(),
            pv == params_view(ps@),
            start + param_classes(pv) == names_view(out@) + param_classes(pv.skip(k as int)),
        decreases ps.len() - k,
    {
        assert(pv.skip(k as int)[0] == ps@[k as int]@);
        assert(pv.skip(k as int).drop_first() =~= pv.skip(k + 1));
        let ghost before = names_view(out@);
        crate::class::collect_class_names(&ps[k].jtype, out);
        let ghost here = names_view(out@).skip(before.len() as int);
        assert(names_view(out@) =~= before + here);
        k += 1;
        assert(before + (here + param_classes(pv.skip(k as int))) =~= names_view(out@) + param_classes(
            pv.skip(k as int),
        ));
    }
    assert(pv.skip(k as int) =~= Seq::<ParamView>::empty());
    assert(names_view(out@) + Seq::<Seq<char>>::empty() =~= names_view(out@));
}

fn contains_name(v: &Vec<String>, x: &str) -> (b: bool)
    ensures
        b == names_view(v@).contains(x@),
{
    let mut k: usize = 0;
    while k < v.len()
        invariant
            k <= v.len(),
            forall|t: int| 0 <= t < k ==> v@[t]@ != x@,
        decreases v.len() - k,
    {
        if str_eq(v[k].as_str(), x) {
            assert(names_view(v@)[k as int] == x@);
            return true;
        }
        k += 1;
    }
    proof {
        if names_view(v@).contains(x@) {
            let t = choose|t: int| 0 <= t < names_view(v@).len() && names_view(v@)[t] == x@;
            assert(v@[t]@ == x@);
        }
    }
    false
}

fn distinct_without_exec(used: &Vec<String>, x: &str) -> (r: Vec<String>)
    ensures
        names_view(r@) == distinct_without(names_view(used@), x@),
{
    let ghost uv = names_view(used@);
    let mut out: Vec<String> = Vec::new();
    let mut i: usize = 0;
    assert(uv.take(0) =~= Seq::<Seq<char>>::empty());
    assert(names_view(out@) =~= Seq::<Seq<char>>::empty());
    while i < used.len()
        invariant
            i <= used.len(),
            uv == names_view(used@),
            names_view(out@) == distinct_without(uv.take(i as int), x@),
        decreases used.len() - i,
    {
        let y = &used[i];
        assert(uv.take(i + 1).drop_last() =~= uv.take(i as int));
        assert(uv.take(i + 1).last() == y@);
        if !str_eq(y.as_str(), x) && !contains_name(&out, y.as_str()) {
            let ghost before = out@;
            out.push(y.clone());
            assert(names_view(out@) =~= names_view(before).push(y@));
        }
        i += 1;
    }
    assert(uv.take(i as int) =~= uv);
    out
}

/// Reads `std::path::MAIN_SEPARATOR`, which is `/`, or `\` on Windows.
#[verifier::external_body]
pub(crate) fn main_separator() -> (c: char)
    ensures
        c == '/' || c == '\\',
{
    std::path::MAIN_SEPARATOR
}

fn class_source_exec(source: SourceDestination, class_path: &str, sep: char) -> (r: String)
    ensures
        r@ == class_source(source@, class_path@, sep),
{
    match source {
        SourceDestination::RelativeInFolder(e) => {
            let mut out = e;
            crate::text::push_char(&mut out, sep);
            let path = replace_char_exec(class_path, '.', sep);
            out.append(path.as_str());
            out.append(".java");
            out
        },
        SourceDestination::Here(e) => e,
        SourceDestination::Empty => String::new(),
    }
}

/// The class that a read class file describes, for class path
/// `class_path` (see `class_from`); the separator is the platform's.
pub fn load_class_data(head: &ClassHead, body: &ClassBody, class_path: String, source: SourceDestination) -> (r:
    Class)
    requires
        class_file_ok(head@, body@),
    ensures
        exists|sep: char|
            (sep == '/' || sep == '\\') && r@ == class_from(head@, body@, class_path@, source@, sep),
{
    let ghost hv = head@;
    let ghost bv = body@;
    let ghost cp = class_path@;
    let ghost sv = source@;
    let pool = &head.pool;
    let ghost pv = pool_view(pool@);
    let mut used: Vec<String> = Vec::new();
    let code = parse_code_attribute(pool, &body.attributes);
    parse_used_classes(pool, &code, &mut used);
    assert(names_view(used@) =~= Seq::<Seq<char>>::empty() + code_classes(pv, code_of(pv, bv.attributes)));
    let ghost first = names_view(used@);
    let ghost mv = bv.methods;
    let mut methods: Vec<Method> = Vec::new();
    let mut k: usize = 0;
    assert(mv.skip(0) =~= mv);
    assert(methods_view(methods@) =~= Seq::<MethodView>::empty());
    assert(first + methods_classes(pv, mv) =~= names_view(used@) + methods_classes(pv, mv.skip(0)));
    assert(kept_methods(pv, mv) =~= methods_view(methods@) + kept_methods(pv, mv.skip(0)));
    while k < body.methods.len()
        invariant
            k <= body.methods.len(),
            pv == pool_view(pool@),
            mv == methods_data_view(body.methods@),
            first + methods_classes(pv, mv) == names_view(used@) + methods_classes(pv, mv.skip(k as int)),
            kept_methods(pv, mv) == methods_view(methods@) + kept_methods(pv, mv.skip(k as int)),
        decreases body.methods.len() - k,
    {
        let m = &body.methods[k];
        assert(mv.skip(k as int)[0] == method_data_view(*m));
        assert(mv.skip(k as int).drop_first() =~= mv.skip(k + 1));
        let ghost ub = names_view(used@);
        let ghost mb = methods_view(methods@);
        let mcode = parse_code_attribute(pool, &m.3);
        parse_used_classes(pool, &mcode, &mut used);
        let ghost after_code = names_view(used@);
        match parse_method(pool, m) {
            Some(mm) => {
                collect_param_classes(&mm.parameters, &mut used);
                crate::class::collect_class_names(&mm.ret, &mut used);
                if !str_eq(mm.name.as_str(), "<init>") {
                    let ghost v = mm@;
                    methods.push(mm);
                    assert(methods_view(methods@) =~= mb + seq![v]);
                } else {
                    assert(methods_view(methods@) =~= mb + Seq::<MethodView>::empty());
                }
            },
            None => {
                assert(names_view(used@) =~= after_code + Seq::<Seq<char>>::empty());
                assert(methods_view(methods@) =~= mb + Seq::<MethodView>::empty());
            },
        }
        let ghost here = names_view(used@).skip(ub.len() as int);
        assert(names_view(used@) =~= ub + here);
        assert(here =~= method_classes(pv, method_data_view(*m)));
        let ghost kept_here = methods_view(methods@).skip(mb.len() as int);
        assert(methods_view(methods@) =~= mb + kept_here);
        k += 1;
        assert(ub + (here + methods_classes(pv, mv.skip(k as int))) =~= names_view(used@) + methods_classes(
            pv,
            mv.skip(k as int),
        ));
        assert(mb + (kept_here + kept_methods(pv, mv.skip(k as int))) =~= methods_view(methods@)
            + kept_methods(pv, mv.skip(k as int)));
    }
    assert(mv.skip(k as int) =~= Seq::<MethodV>::empty());
    assert(names_view(used@) + Seq::<Seq<char>>::empty() =~= names_view(used@));
    assert(methods_view(methods@) + Seq::<MethodView>::empty() =~= methods_view(methods@));
    let ghost second = names_view(used@);
    let ghost fv = bv.fields;
    let mut fields: Vec<Field> = Vec::new();
    let mut j: usize = 0;
    assert(fv.skip(0) =~= fv);
    assert(fields_view(fields@) =~= Seq::<FieldView>::empty());
    assert(second + fields_classes(pv, fv) =~= names_view(used@) + fields_classes(pv, fv.skip(0)));
    assert(kept_fields(pv, fv) =~= fields_view(fields@) + kept_fields(pv, fv.skip(0)));
    while j < body.fields.len()
        invariant
            j <= body.fields.len(),
            pv == pool_view(pool@),
            fv == body.fields@,
            second + fields_classes(pv, fv) == names_view(used@) + fields_classes(pv, fv.skip(j as int)),
            kept_fields(pv, fv) == fields_view(fields@) + kept_fields(pv, fv.skip(j as int)),
        decreases body.fields.len() - j,
    {
        let f = &body.fields[j];
        assert(fv.skip(j as int)[0] == *f);
        assert(fv.skip(j as int).drop_first() =~= fv.skip(j + 1));
        let ghost ub = names_view(used@);
        let ghost fb = fields_view(fields@);
        match parse_field(pool, f) {
            Some(ff) => {
                crate::class::collect_class_names(&ff.jtype, &mut used);
                let ghost v = ff@;
                fields.push(ff);
                assert(fields_view(fields@) =~= fb + seq![v]);
            },
            None => {
                assert(names_view(used@) =~= ub + Seq::<Seq<char>>::empty());
                assert(fields_view(fields@) =~= fb + Seq::<FieldView>::empty());
            },
        }
        let ghost here = names_view(used@).skip(ub.len() as int);
        assert(names_view(used@) =~= ub + here);
        let ghost kept_here = fields_view(fields@).skip(fb.len() as int);
        assert(fields_view(fields@) =~= fb + kept_here);
        j += 1;
        assert(ub + (here + fields_classes(pv, fv.skip(j as int))) =~= names_view(used@) + fields_classes(
            pv,
            fv.skip(j as int),
        ));
        assert(fb + (kept_here + kept_fields(pv, fv.skip(j as int))) =~= fields_view(fields@) + kept_fields(
            pv,
            fv.skip(j as int),
        ));
    }
    assert(fv.skip(j as int) =~= Seq::<(u16, u16, u16)>::empty());
    assert(names_view(used@) + Seq::<Seq<char>>::empty() =~= names_view(used@));
    assert(fields_view(fields@) + Seq::<FieldView>::empty() =~= fields_view(fields@));
    let name = match lookup_class_name_exec(pool, head.this_class) {
        Some(n) => n,
        None => String::new(),
    };
    let trimmed = crate::text::trim_end_matches_exec(class_path.as_str(), name.as_str());
    let package = crate::text::trim_end_matches_exec(trimmed.as_str(), ".");
    let mut imports: Vec<ImportUnit> = Vec::new();
    imports.push(ImportUnit::Package(package));
    let distinct = distinct_without_exec(&used, class_path.as_str());
    let ghost dv = names_view(distinct@);
    let ghost ib = imports_view(imports@);
    let mut d: usize = 0;
    while d < distinct.len()
        invariant
            d <= distinct.len(),
            dv == names_view(distinct@),
            imports_view(imports@) == ib + dv.take(d as int).map_values(|c: Seq<char>| ImportView::Class(c)),
        decreases distinct.len() - d,
    {
        let ghost before = imports@;
        imports.push(ImportUnit::Class(distinct[d].clone()));
        assert(imports_view(imports@) =~= imports_view(before).push(ImportView::Class(dv[d as int])));
        d += 1;
        assert(dv.take(d as int).map_values(|c: Seq<char>| ImportView::Class(c)) =~= dv.take(d - 1).map_values(
            |c: Seq<char>| ImportView::Class(c),
        ).push(ImportView::Class(dv[d - 1])));
    }
    assert(dv.take(d as int) =~= dv);
    let super_class = match lookup_class_name_exec(pool, head.super_class) {
        Some(c) => if str_eq(c.as_str(), "Object") {
            SuperClass::Empty
        } else {
            SuperClass::Name(c)
        },
        None => SuperClass::Empty,
    };
    let mut super_interfaces: Vec<SuperClass> = Vec::new();
    let mut t: usize = 0;
    while t < head.interfaces.len()
        invariant
            t <= head.interfaces.len(),
            pv == pool_view(pool@),
            supers_view(super_interfaces@) == head.interfaces@.take(t as int).map_values(
                |i: u16|
                    match lookup_class_name(pv, i) {
                        Some(c) => SuperView::Name(c),
                        None => SuperView::Empty,
                    },
            ),
        decreases head.interfaces.len() - t,
    {
        let ghost before = super_interfaces@;
        let sc = match lookup_class_name_exec(pool, head.interfaces[t]) {
            Some(c) => SuperClass::Name(c),
            None => SuperClass::Empty,
        };
        super_interfaces.push(sc);
        assert(supers_view(super_interfaces@) =~= supers_view(before).push(supers_view(super_interfaces@).last()));
        t += 1;
        assert(head.interfaces@.take(t as int).drop_last() =~= head.interfaces@.take(t - 1));
    }
    assert(head.interfaces@.take(t as int) =~= head.interfaces@);
    let sep = main_separator();
    let source = class_source_exec(source, class_path.as_str(), sep);
    let r = Class {
        class_path,
        source,
        access: Access::from_bits(parse_class_access(head.access)),
        imports,
        name,
        methods,
        fields,
        super_class,
        super_interfaces,
    };
    let ghost want = class_from(hv, bv, cp, sv, sep);
    assert(r@.class_path == want.class_path);
    assert(r@.source == want.source);
    assert(r@.access == want.access);
    assert(r@.name == want.name);
    assert(r@.imports =~= want.imports);
    assert(r@.methods =~= want.methods);
    assert(r@.fields =~= want.fields);
    assert(r@.super_class == want.super_class);
    assert(r@.super_interfaces =~= want.super_interfaces);
    assert(r@ == want);
    r
}

fn index_ok_exec(pool: &Vec<PoolEntry>, index: u16) -> (b: bool)
    ensures
        b == index_ok(pool_view(pool@), index),
{
    index == 0 || ((index - 1) as usize) < pool.len()
}

fn class_name_ok_exec(pool: &Vec<PoolEntry>, index: u16) -> (b: bool)
    ensures
        b == class_name_ok(pool_view(pool@), index),
{
    match class_entry_exec(pool, index) {
        Some(k) => lookup_string_exec(pool, k).is_some(),
        None => true,
    }
}

fn class_index_ok_exec(pool: &Vec<PoolEntry>, index: u16) -> (b: bool)
    ensures
        b == class_index_ok(pool_view(pool@), index),
{
    match class_entry_exec(pool, index) {
        Some(k) => index_ok_exec(pool, k),
        None => true,
    }
}

fn code_search_ok_exec(pool: &Vec<PoolEntry>, attrs: &Vec<Attribute>) -> (b: bool)
    ensures
        b == code_search_ok(pool_view(pool@), attrs_view(attrs@)),
{
    let ghost pv = pool_view(pool@);
    let ghost av = attrs_view(attrs@);
    let mut k: usize = 0;
    assert(av.skip(0) =~= av);
    while k < attrs.len()
        invariant
            k <= attrs.len(),
            pv == pool_view(pool@),
            av == attrs_view(attrs@),
            code_search_ok(pv, av) == code_search_ok(pv, av.skip(k as int)),
        decreases attrs.len() - k,
    {
        assert(av.skip(k as int)[0] == (attrs@[k as int].0, attrs@[k as int].1@));
        assert(av.skip(k as int).drop_first() =~= av.skip(k + 1));
        let a = &attrs[k];
        if !index_ok_exec(pool, a.0) {
            return false;
        }
        if is_named(pool, a, "Code") && code_attributes(a.1.as_slice()).is_some() {
            return true;
        }
        k += 1;
    }
    true
}

fn all_indices_ok(pool: &Vec<PoolEntry>, indices: &Vec<u16>) -> (b: bool)
    ensures
        b == indices_ok(pool_view(pool@), indices@),
{
    let mut k: usize = 0;
    while k < indices.len()
        invariant
            k <= indices.len(),
            forall|i: int| 0 <= i < k ==> index_ok(pool_view(pool@), #[trigger] indices@[i]),
        decreases indices.len() - k,
    {
        if !index_ok_exec(pool, indices[k]) {
            return false;
        }
        k += 1;
    }
    true
}

fn attr_names_ok(pool: &Vec<PoolEntry>, attrs: &Vec<Attribute>) -> (b: bool)
    ensures
        b == names_ok(pool_view(pool@), attrs_view(attrs@)),
{
    let mut k: usize = 0;
    while k < attrs.len()
        invariant
            k <= attrs.len(),
            forall|i: int| 0 <= i < k ==> index_ok(pool_view(pool@), #[trigger] attrs_view(attrs@)[i].0),
        decreases attrs.len() - k,
    {
        assert(attrs_view(attrs@)[k as int].0 == attrs@[k as int].0);
        if !index_ok_exec(pool, attrs[k].0) {
            return false;
        }
        k += 1;
    }
    true
}

fn code_classes_ok_exec(pool: &Vec<PoolEntry>, attrs: &Vec<Attribute>) -> (b: bool)
    ensures
        b == code_classes_ok(pool_view(pool@), code_of(pool_view(pool@), attrs_view(attrs@))),
{
    match parse_code_attribute(pool, attrs) {
        Some(c) => {
            let names = attr_names_ok(pool, &c);
            let indices = lvt_indices_exec(pool, &c);
            let ok = all_indices_ok(pool, &indices);
            names && ok
        },
        None => true,
    }
}

fn exceptions_ok(pool: &Vec<PoolEntry>, table: &Vec<u16>) -> (b: bool)
    ensures
        b == forall|i: int|
            0 <= i < table@.len() ==> #[trigger] table@[i] != 0 && class_index_ok(pool_view(pool@), table@[i]),
{
    let mut k: usize = 0;
    while k < table.len()
        invariant
            k <= table.len(),
            forall|i: int| 0 <= i < k ==> #[trigger] table@[i] != 0 && class_index_ok(pool_view(pool@), table@[i]),
        decreases table.len() - k,
    {
        if table[k] == 0 || !class_index_ok_exec(pool, table[k]) {
            return false;
        }
        k += 1;
    }
    true
}

fn method_ok_exec(pool: &Vec<PoolEntry>, m: &MethodData) -> (b: bool)
    ensures
        b == method_ok(pool_view(pool@), method_data_view(*m)),
{
    let ghost pv = pool_view(pool@);
    if !code_search_ok_exec(pool, &m.3) || !code_classes_ok_exec(pool, &m.3) || !index_ok_exec(pool, m.2) {
        return false;
    }
    if lookup_string_exec(pool, m.2).is_none() {
        return true;
    }
    let names = parameter_names_exec(pool, &m.3);
    let table = exception_tables_exec(pool, &m.3);
    let a = attr_names_ok(pool, &m.3);
    let n = all_indices_ok(pool, &names);
    let e = exceptions_ok(pool, &table);
    let x = index_ok_exec(pool, m.1);
    a && n && e && x
}

fn field_ok_exec(pool: &Vec<PoolEntry>, f: &FieldData) -> (b: bool)
    ensures
        b == field_ok(pool_view(pool@), *f),
{
    index_ok_exec(pool, f.1) && (lookup_string_exec(pool, f.1).is_none() || index_ok_exec(pool, f.2))
}

/// Whether the class file can be described without a lookup outside its
/// pool (see `class_file_ok`).
pub fn class_file_ok_exec(head: &ClassHead, body: &ClassBody) -> (b: bool)
    ensures
        b == class_file_ok(head@, body@),
{
    let pool = &head.pool;
    let ghost pv = pool_view(pool@);
    if !code_search_ok_exec(pool, &body.attributes) || !code_classes_ok_exec(pool, &body.attributes) {
        return false;
    }
    let mut k: usize = 0;
    while k < body.methods.len()
        invariant
            k <= body.methods.len(),
            pv == pool_view(pool@),
            pv == head@.pool,
            forall|i: int| 0 <= i < k ==> method_ok(pv, #[trigger] body@.methods[i]),
        decreases body.methods.len() - k,
    {
        assert(body@.methods[k as int] == method_data_view(body.methods@[k as int]));
        if !method_ok_exec(pool, &body.methods[k]) {
            assert(!method_ok(pv, body@.methods[k as int]));
            return false;
        }
        k += 1;
    }
    let mut j: usize = 0;
    while j < body.fields.len()
        invariant
            j <= body.fields.len(),
            pv == pool_view(pool@),
            pv == head@.pool,
            forall|i: int| 0 <= i < k ==> method_ok(pv, #[trigger] body@.methods[i]),
            k == body.methods.len(),
            code_search_ok(pv, body@.attributes),
            code_classes_ok(pv, code_of(pv, body@.attributes)),
            forall|i: int| 0 <= i < j ==> field_ok(pv, #[trigger] body@.fields[i]),
        decreases body.fields.len() - j,
    {
        if !field_ok_exec(pool, &body.fields[j]) {
            assert(!field_ok(pv, body@.fields[j as int]));
            return false;
        }
        j += 1;
    }
    if !class_name_ok_exec(pool, head.this_class) || lookup_class_name_exec(pool, head.this_class).is_none()
        || !class_name_ok_exec(pool, head.super_class) {
        return false;
    }
    let mut t: usize = 0;
    while t < head.interfaces.len()
        invariant
            t <= head.interfaces.len(),
            pv == pool_view(pool@),
            pv == head@.pool,
            forall|i: int| 0 <= i < body.methods.len() ==> method_ok(pv, #[trigger] body@.methods[i]),
            forall|i: int| 0 <= i < body.fields.len() ==> field_ok(pv, #[trigger] body@.fields[i]),
            code_search_ok(pv, body@.attributes),
            code_classes_ok(pv, code_of(pv, body@.attributes)),
            class_name_ok(pv, head@.this_class),
            lookup_class_name(pv, head@.this_class) is Some,
            class_name_ok(pv, head@.super_class),
            forall|i: int| 0 <= i < t ==> class_name_ok(pv, #[trigger] head.interfaces@[i]),
        decreases head.interfaces.len() - t,
    {
        if !class_name_ok_exec(pool, head.interfaces[t]) {
            assert(!class_name_ok(pv, head@.interfaces[t as int]));
            return false;
        }
        t += 1;
    }
    true
}

fn pool_count_zero_exec(b: &[u8]) -> (r: bool)
    ensures
        r == pool_count_zero(b@),
{
    b.len() >= 10 && b[0] == 0xCAu8 && b[1] == 0xFEu8 && b[2] == 0xBAu8 && b[3] == 0xBEu8 && b[8] == 0u8
        && b[9] == 0u8
}

/// Loads the class that a class file describes, for class path
/// `class_path`: a file that `classfile_parser` does not read, or whose
/// description would look outside its constant pool (see
/// `class_file_ok`), is a parse error.
pub fn load_class(bytes: &[u8], class_path: String, source: SourceDestination) -> (r: Result<
    Class,
    ClassError,
>)
    ensures
        pool_count_zero(bytes@) ==> r matches Err(ClassError::ParseError),
        !pool_count_zero(bytes@) ==> match (spec_class_head(bytes@), spec_class_body(bytes@)) {
            (Some(h), Some(b)) => if class_file_ok(h, b) {
                r matches Ok(c) && exists|sep: char|
                    (sep == '/' || sep == '\\') && c@ == class_from(h, b, class_path@, source@, sep)
            } else {
                r matches Err(ClassError::ParseError)
            },
            _ => r matches Err(ClassError::ParseError),
        },
{
    if pool_count_zero_exec(bytes) {
        return Err(ClassError::ParseError);
    }
    let head = match read_class_head(bytes) {
        Some(h) => h,
        None => {
            return Err(ClassError::ParseError);
        },
    };
    let body = match read_class_body(bytes) {
        Some(b) => b,
        None => {
            return Err(ClassError::ParseError);
        },
    };
    if !class_file_ok_exec(&head, &body) {
        return Err(ClassError::ParseError);
    }
    Ok(load_class_data(&head, &body, class_path, source))
}

proof fn lemma_distinct_without(s: Seq<Seq<char>>, x: Seq<char>)
    ensures
        forall|i: int|
            0 <= i < distinct_without(s, x).len() ==> #[trigger] distinct_without(s, x)[i] != x,
        forall|i: int, j: int|
            0 <= i < j < distinct_without(s, x).len() ==> #[trigger] distinct_without(s, x)[i]
                != #[trigger] distinct_without(s, x)[j],
    decreases s.len(),
{
    if s.len() > 0 {
        lemma_distinct_without(s.drop_last(), x);
        let u = distinct_without(s.drop_last(), x);
        let y = s.last();
        if !(y == x || u.contains(y)) {
            let d = u.push(y);
            assert(distinct_without(s, x) == d);
            assert forall|i: int| 0 <= i < d.len() implies #[trigger] d[i] != x by {
                if i < u.len() {
                    assert(d[i] == u[i]);
                }
            }
            assert forall|i: int, j: int| 0 <= i < j < d.len() implies #[trigger] d[i] != #[trigger] d[j] by {
                assert(d[i] == u[i]);
                if j == u.len() {
                    assert(!u.contains(y));
                    assert(d[j] == y);
                } else {
                    assert(d[j] == u[j]);
                }
            }
        }
    }
}

proof fn lemma_kept_methods(pool: Seq<PoolView>, ms: Seq<MethodV>)
    ensures
        forall|i: int| 0 <= i < kept_methods(pool, ms).len() ==> #[trigger] kept_methods(pool, ms)[i].name
            != "<init>"@,
    decreases ms.len(),
{
    if ms.len() > 0 {
        lemma_kept_methods(pool, ms.drop_first());
        let here: Seq<MethodView> = match method_of(pool, ms[0]) {
            Some(m) => if m.name == "<init>"@ {
                seq![]
            } else {
                seq![m]
            },
            None => seq![],
        };
        let rest = kept_methods(pool, ms.drop_first());
        assert forall|i: int| 0 <= i < kept_methods(pool, ms).len() implies #[trigger] kept_methods(
            pool,
            ms,
        )[i].name != "<init>"@ by {
            if i >= here.len() {
                assert(kept_methods(pool, ms)[i] == rest[i - here.len()]);
            }
        }
    }
}

/// A class read from a class file imports its package first and then each
/// class that it uses once, never itself; none of its methods is a
/// constructor.
pub proof fn lemma_class_from(head: HeadView, body: BodyView, class_path: Seq<char>, source: SourceView, sep: char)
    ensures
        ({
            let c = class_from(head, body, class_path, source, sep);
            &&& c.imports.len() >= 1
            &&& c.imports[0] is Package
            &&& forall|i: int|
                1 <= i < c.imports.len() ==> #[trigger] c.imports[i] is Class && c.imports[i]
                    != ImportView::Class(class_path)
            &&& forall|i: int, j: int|
                1 <= i < j < c.imports.len() ==> #[trigger] c.imports[i] != #[trigger] c.imports[j]
            &&& forall|i: int| 0 <= i < c.methods.len() ==> #[trigger] c.methods[i].name != "<init>"@
        }),
{
    let pool = head.pool;
    let used = code_classes(pool, code_of(pool, body.attributes)) + methods_classes(pool, body.methods)
        + fields_classes(pool, body.fields);
    let d = distinct_without(used, class_path);
    lemma_distinct_without(used, class_path);
    lemma_kept_methods(pool, body.methods);
    let c = class_from(head, body, class_path, source, sep);
    let mapped = d.map_values(|n: Seq<char>| ImportView::Class(n));
    assert forall|i: int| 1 <= i < c.imports.len() implies #[trigger] c.imports[i] is Class && c.imports[i]
        != ImportView::Class(class_path) by {
        assert(c.imports[i] == mapped[i - 1]);
        assert(d[i - 1] != class_path);
    }
    assert forall|i: int, j: int| 1 <= i < j < c.imports.len() implies #[trigger] c.imports[i]
        != #[trigger] c.imports[j] by {
        assert(c.imports[i] == mapped[i - 1]);
        assert(c.imports[j] == mapped[j - 1]);
        assert(d[i - 1] != d[j - 1]);
    }
}

/// The method access flag of the class file format (JVMS table 4.6-A) that
/// has the name of the access `a`, for each access that a method can have.
pub open spec fn method_flag_bits(a: u16) -> Option<u16> {
    if a == Access::Public {
        Some(0x0001u16)
    } else if a == Access::Private {
        Some(0x0002u16)
    } else if a == Access::Protected {
        Some(0x0004u16)
    } else if a == Access::Static {
        Some(0x0008u16)
    } else if a == Access::Final {
        Some(0x0010u16)
    } else if a == Access::Abstract {
        Some(0x0400u16)
    } else if a == Access::Synthetic {
        Some(0x1000u16)
    } else {
        None
    }
}

/// A method whose flags are exactly one flag of the class file format has
/// the access of that flag's name, and no other flags give a method any
/// access.
pub proof fn lemma_method_access_flags(bits: u16, a: u16)
    ensures
        (method_access(bits) == a && a != 0) <==> method_flag_bits(a) == Some(bits),
{
}

/// The field access flag of the class file format (JVMS table 4.5-A) that
/// has the name of the access `a`, for each access that a field can have.
pub open spec fn field_flag_bits(a: u16) -> Option<u16> {
    if a == Access::Public {
        Some(0x0001u16)
    } else if a == Access::Private {
        Some(0x0002u16)
    } else if a == Access::Protected {
        Some(0x0004u16)
    } else if a == Access::Static {
        Some(0x0008u16)
    } else if a == Access::Final {
        Some(0x0010u16)
    } else if a == Access::Synthetic {
        Some(0x1000u16)
    } else {
        None
    }
}

/// A field whose flags are exactly one flag of the class file format has
/// the access of that flag's name, and no other flags give a field any
/// access.
pub proof fn lemma_field_access_flags(bits: u16, a: u16)
    ensures
        (field_access(bits) == a && a != 0) <==> field_flag_bits(a) == Some(bits),
{
}

/// The class access flag of the class file format (JVMS table 4.1-B) that
/// has the name of the access `a`, for each access that a class can have.
pub open spec fn class_flag_bits(a: u16) -> Option<u16> {
    if a == Access::Public {
        Some(0x0001u16)
    } else if a == Access::Final {
        Some(0x0010u16)
    } else if a == Access::Super {
        Some(0x0020u16)
    } else if a == Access::Interface {
        Some(0x0200u16)
    } else if a == Access::Synthetic {
        Some(0x1000u16)
    } else if a == Access::Annotation {
        Some(0x2000u16)
    } else if a == Access::Enum {
        Some(0x4000u16)
    } else {
        None
    }
}

/// A class whose flags are exactly one flag of the class file format has
/// the access of that flag's name, and no other flags give a class any
/// access.
pub proof fn lemma_class_access_flags(bits: u16, a: u16)
    ensures
        (class_access(bits) == a && a != 0) <==> class_flag_bits(a) == Some(bits),
{
}

} // verus!
