//! The description of a Java class that the server indexes: its path, its
//! imports, its methods and fields, and the types they use.
use vstd::prelude::*;

use crate::text::{
    chars_of, lemma_rfind_from_bounds, rfind_exec, rsplit_once, starts_with, starts_with_exec,
    str_eq, string_of, trim_start_matches, trim_start_matches_exec,
};

verus! {

#[derive(Debug)]
pub enum ClassError {
    IO(std::io::Error),
    Asm,
    Unknown,
    ParseError,
    UnknownClassName,
    UnknownClassPath,
    InvalidClassPath,
}

#[derive(Debug, PartialEq, Clone, Default)]
pub struct ClassFolder {
    pub classes: Vec<Class>,
}

impl ClassFolder {
    pub fn new(classes: Vec<Class>) -> (r: Self)
        ensures
            r.classes == classes,
    {
        Self { classes }
    }

    pub fn append(&mut self, other: Self)
        ensures
            final(self).classes@ == old(self).classes@ + other.classes@,
    {
        let mut other = other;
        self.classes.append(&mut other.classes);
    }
}

#[derive(Debug, PartialEq, Clone, Default)]
pub struct Class {
    pub class_path: String,
    pub source: String,
    pub access: Access,
    pub imports: Vec<ImportUnit>,
    pub name: String,
    pub methods: Vec<Method>,
    pub fields: Vec<Field>,
    pub super_class: SuperClass,
    pub super_interfaces: Vec<SuperClass>,
}

impl Class {
    /// The class without its imports.
    pub fn no_imports(self) -> (r: Self)
        ensures
            r.imports@.len() == 0,
            r.class_path == self.class_path,
            r.source == self.source,
            r.access == self.access,
            r.name == self.name,
            r.methods == self.methods,
            r.fields == self.fields,
            r.super_class == self.super_class,
            r.super_interfaces == self.super_interfaces,
    {
        let mut c = self;
        c.imports = Vec::new();
        c
    }
}

#[derive(Debug, PartialEq, Clone)]
pub enum SuperClass {
    Empty,
    Name(String),
    ClassPath(String),
}

impl Default for SuperClass {
    fn default() -> (r: Self)
        ensures
            r == SuperClass::Empty,
    {
        SuperClass::Empty
    }
}

#[derive(Clone, Debug, PartialEq, Eq, Hash)]
pub enum ImportUnit {
    Package(String),
    Class(String),
    StaticClass(String),
    StaticClassMethod(String, String),
    Prefix(String),
    StaticPrefix(String),
}

/// The class name in a class path: what follows its last `.`.
pub open spec fn spec_class_name(class_path: Seq<char>) -> Option<Seq<char>> {
    match rsplit_once(class_path, seq!['.']) {
        Some((_, c)) => Some(c),
        None => None,
    }
}

impl ImportUnit {
    pub fn class_path_get_class_name(class_path: &str) -> (r: Option<&str>)
        ensures
            match spec_class_name(class_path@) {
                Some(c) => r matches Some(x) && x@ == c,
                None => r is None,
            },
    {
        let v = chars_of(class_path);
        let dot = chars_of(".");
        proof {
            reveal_strlit(".");
            assert(dot@ =~= seq!['.']);
            lemma_rfind_from_bounds(v@, dot@, v@.len() - dot@.len());
        }
        match rfind_exec(&v, &dot) {
            Some(i) => {
                let n = class_path.unicode_len();
                Some(class_path.substring_char(i + 1, n))
            },
            None => None,
        }
    }

    pub fn class_path_match_class_name(class_path: &str, name: &str) -> (b: bool)
        ensures
            b == (spec_class_name(class_path@) == Some(name@)),
    {
        match ImportUnit::class_path_get_class_name(class_path) {
            Some(c) => str_eq(c, name),
            None => false,
        }
    }

    /// The class path that this import brings in under `name`, for an
    /// import of a class.
    pub fn get_imported_class_package(&self, name: &str) -> (r: Option<String>)
        ensures
            match self {
                ImportUnit::Class(p) | ImportUnit::StaticClass(p) => if spec_class_name(p@) == Some(
                    name@,
                ) {
                    r matches Some(x) && x@ == p@
                } else {
                    r is None
                },
                _ => r is None,
            },
    {
        match self {
            ImportUnit::Class(class_path) | ImportUnit::StaticClass(class_path) => {
                if Self::class_path_match_class_name(class_path.as_str(), name) {
                    return Some(class_path.clone());
                }
                None
            },
            _ => None,
        }
    }
}

#[derive(Debug, PartialEq)]
pub enum SourceKind {
    Jdk(String),
    Maven(String),
}

/// Access flags of a class, method or field.
#[derive(Clone, Copy, PartialEq, Eq, Debug, Default, Structural)]
pub struct Access {
    pub bits: u16,
}

#[allow(non_upper_case_globals)]
impl Access {
    pub const Public: u16 = 0b0000000000000001;
    pub const Private: u16 = 0b0000000000000010;
    pub const Protected: u16 = 0b0000000000000100;
    pub const Static: u16 = 0b0000000000001000;
    pub const Final: u16 = 0b0000000000100000;
    pub const Super: u16 = 0b0000000001000000;
    pub const Volatile: u16 = 0b0000000010000000;
    pub const Transient: u16 = 0b0000000100000000;
    pub const Synthetic: u16 = 0b0000001000000000;
    pub const Annotation: u16 = 0b0000010000000000;
    pub const Enum: u16 = 0b0000100000000000;
    pub const Interface: u16 = 0b0001000000000000;
    pub const Abstract: u16 = 0b0010000000000000;
    pub const Synchronized: u16 = 0b0100000000000000;

    pub fn empty() -> (r: Access)
        ensures
            r.bits == 0,
    {
        Access { bits: 0 }
    }

    pub fn from_bits(bits: u16) -> (r: Access)
        ensures
            r.bits == bits,
    {
        Access { bits }
    }

    pub fn contains(&self, flag: u16) -> (b: bool)
        ensures
            b == (self.bits & flag == flag),
    {
        self.bits & flag == flag
    }

    pub fn insert(&mut self, flag: u16)
        ensures
            final(self).bits == old(self).bits | flag,
    {
        self.bits = self.bits | flag;
    }
}

/// The modifiers written before a Java declaration that an access is made
/// from: its visibility, and whether it is synchronized, final or static.
#[derive(Clone, Copy, PartialEq, Eq, Debug, Default, Structural)]
pub struct Availability {
    pub public: bool,
    pub private: bool,
    pub protected: bool,
    pub synchronized: bool,
    pub is_final: bool,
    pub is_static: bool,
}

pub open spec fn flag_if(b: bool, flag: u16) -> u16 {
    if b {
        flag
    } else {
        0
    }
}

/// The access of a declaration with the modifiers `v`: its visibility
/// flags, or `def` where it has none, then its synchronized, final and
/// static flags.
pub open spec fn access_from(v: Availability, def: u16) -> u16 {
    let vis = flag_if(v.public, 0b0000000000000001u16) | flag_if(v.private, 0b0000000000000010u16) | flag_if(
        v.protected,
        0b0000000000000100u16,
    );
    let vis = if !(v.public || v.private || v.protected) {
        vis | def
    } else {
        vis
    };
    vis | flag_if(v.synchronized, 0b0100000000000000u16) | flag_if(v.is_final, 0b0000000000100000u16) | flag_if(
        v.is_static,
        0b0000000000001000u16,
    )
}

/// The visibility flags that `v` writes.
pub open spec fn visibility_bits(v: Availability) -> u16 {
    flag_if(v.public, 0b0000000000000001u16) | flag_if(v.private, 0b0000000000000010u16) | flag_if(
        v.protected,
        0b0000000000000100u16,
    )
}

/// The synchronized, final and static flags that `v` writes.
pub open spec fn modifier_bits(v: Availability) -> u16 {
    flag_if(v.synchronized, 0b0100000000000000u16) | flag_if(v.is_final, 0b0000000000100000u16) | flag_if(
        v.is_static,
        0b0000000000001000u16,
    )
}

/// The access made from modifiers is their visibility flags and their
/// other modifier flags, with the default access added only where no
/// visibility is written: it holds the public, private and protected flags
/// exactly where they are written (or, with none written, where the
/// default holds them), and the synchronized, final and static flags where
/// they are written or the default holds them with no visibility written.
pub proof fn lemma_access_from(v: Availability, def: u16)
    ensures
        access_from(v, def) == visibility_bits(v) | modifier_bits(v) | if visibility_bits(v) == 0 {
            def
        } else {
            0u16
        },
        visibility_bits(v) == 0 <==> !(v.public || v.private || v.protected),
        access_from(v, def) & 1u16 == 1u16 <==> v.public || (visibility_bits(v) == 0 && def & 1u16 == 1u16),
        access_from(v, def) & 2u16 == 2u16 <==> v.private || (visibility_bits(v) == 0 && def & 2u16 == 2u16),
        access_from(v, def) & 4u16 == 4u16 <==> v.protected || (visibility_bits(v) == 0 && def & 4u16 == 4u16),
        access_from(v, def) & 0x4000u16 == 0x4000u16 <==> v.synchronized || (visibility_bits(v) == 0 && def
            & 0x4000u16 == 0x4000u16),
        access_from(v, def) & 0x20u16 == 0x20u16 <==> v.is_final || (visibility_bits(v) == 0 && def & 0x20u16
            == 0x20u16),
        access_from(v, def) & 8u16 == 8u16 <==> v.is_static || (visibility_bits(v) == 0 && def & 8u16 == 8u16),
{
    let (a, b, c, d, e, f) = (v.public, v.private, v.protected, v.synchronized, v.is_final, v.is_static);
    let x = access_from(v, def);
    let vis = visibility_bits(v);
    let m = modifier_bits(v);
    assert(vis == (if a { 1u16 } else { 0u16 }) | (if b { 2u16 } else { 0u16 }) | (if c { 4u16 } else { 0u16 }));
    assert(m == (if d { 0x4000u16 } else { 0u16 }) | (if e { 0x20u16 } else { 0u16 }) | (if f { 8u16 } else { 0u16 }));
    assert(x == (((if !(a || b || c) { vis | def } else { vis }) | (if d { 0x4000u16 } else { 0u16 })) | (if e {
        0x20u16
    } else {
        0u16
    })) | (if f { 8u16 } else { 0u16 }));
    assert(vis == 0 <==> !(a || b || c)) by (bit_vector)
        requires
            vis == (if a { 1u16 } else { 0u16 }) | (if b { 2u16 } else { 0u16 }) | (if c { 4u16 } else { 0u16 }),
    ;
    assert({
        &&& x == vis | m | if vis == 0 { def } else { 0u16 }
        &&& x & 1u16 == 1u16 <==> a || (vis == 0 && def & 1u16 == 1u16)
        &&& x & 2u16 == 2u16 <==> b || (vis == 0 && def & 2u16 == 2u16)
        &&& x & 4u16 == 4u16 <==> c || (vis == 0 && def & 4u16 == 4u16)
        &&& x & 0x4000u16 == 0x4000u16 <==> d || (vis == 0 && def & 0x4000u16 == 0x4000u16)
        &&& x & 0x20u16 == 0x20u16 <==> e || (vis == 0 && def & 0x20u16 == 0x20u16)
        &&& x & 8u16 == 8u16 <==> f || (vis == 0 && def & 8u16 == 8u16)
    }) by (bit_vector)
        requires
            vis == (if a { 1u16 } else { 0u16 }) | (if b { 2u16 } else { 0u16 }) | (if c { 4u16 } else { 0u16 }),
            m == (if d { 0x4000u16 } else { 0u16 }) | (if e { 0x20u16 } else { 0u16 }) | (if f { 8u16 } else { 0u16 }),
            x == (((if !(a || b || c) { vis | def } else { vis }) | (if d { 0x4000u16 } else { 0u16 })) | (if e {
                0x20u16
            } else {
                0u16
            })) | (if f { 8u16 } else { 0u16 }),
    ;
}

impl Access {
    /// The access of a declaration with the modifiers `value`, `def` where
    /// no visibility is written (see `access_from`).
    pub fn from(value: &Availability, def: Access) -> (r: Access)
        ensures
            r.bits == access_from(*value, def.bits),
    {
        let mut out = Access::empty();
        if value.public {
            out.insert(Access::Public);
        }
        if value.private {
            out.insert(Access::Private);
        }
        if value.protected {
            out.insert(Access::Protected);
        }
        if !(value.public || value.private || value.protected) {
            out.insert(def.bits);
        }
        if value.synchronized {
            out.insert(Access::Synchronized);
        }
        if value.is_final {
            out.insert(Access::Final);
        }
        if value.is_static {
            out.insert(Access::Static);
        }
        assert(forall|x: u16| #![auto] x | 0u16 == x) by (bit_vector);
        assert(forall|x: u16| #![auto] 0u16 | x == x) by (bit_vector);
        out
    }
}

/// Once a flag is inserted into an access, the access contains it, and
/// every flag that it held before too.
pub proof fn lemma_insert_contains(bits: u16, flag: u16, other: u16)
    ensures
        (bits | flag) & flag == flag,
        bits & other == other ==> (bits | flag) & other == other,
{
    assert((bits | flag) & flag == flag) by (bit_vector);
    assert(bits & other == other ==> (bits | flag) & other == other) by (bit_vector);
}

#[derive(Debug, PartialEq, Clone, Default)]
pub struct Method {
    pub access: Access,
    pub name: String,
    pub parameters: Vec<Parameter>,
    pub throws: Vec<JType>,
    pub ret: JType,
    /// When None then it is in the class
    pub source: Option<String>,
}

#[derive(Debug, PartialEq, Clone)]
pub struct Field {
    pub access: Access,
    pub name: String,
    pub jtype: JType,
    /// When None then it is in the class
    pub source: Option<String>,
}

#[derive(Debug, PartialEq, Clone)]
pub struct Parameter {
    pub name: Option<String>,
    pub jtype: JType,
}

#[derive(Debug, PartialEq)]
pub enum JType {
    Void,
    Byte,
    Char,
    Double,
    Float,
    Int,
    Long,
    Short,
    Boolean,
    Wildcard,
    Class(String),
    Array(Box<JType>),
    Generic(String, Vec<JType>),
    Parameter(String),
    Var,
}

impl Default for JType {
    fn default() -> (r: Self)
        ensures
            r == JType::Void,
    {
        JType::Void
    }
}

/// The value of a Java type, names taken as characters.
pub enum JTypeView {
    Void,
    Byte,
    Char,
    Double,
    Float,
    Int,
    Long,
    Short,
    Boolean,
    Wildcard,
    Class(Seq<char>),
    Array(Box<JTypeView>),
    Generic(Seq<char>, Seq<JTypeView>),
    Parameter(Seq<char>),
    Var,
}

pub open spec fn jtype_view(j: JType) -> JTypeView
    decreases j,
{
    match j {
        JType::Void => JTypeView::Void,
        JType::Byte => JTypeView::Byte,
        JType::Char => JTypeView::Char,
        JType::Double => JTypeView::Double,
        JType::Float => JTypeView::Float,
        JType::Int => JTypeView::Int,
        JType::Long => JTypeView::Long,
        JType::Short => JTypeView::Short,
        JType::Boolean => JTypeView::Boolean,
        JType::Wildcard => JTypeView::Wildcard,
        JType::Class(c) => JTypeView::Class(c@),
        JType::Array(b) => JTypeView::Array(Box::new(jtype_view(*b))),
        JType::Generic(c, args) => JTypeView::Generic(c@, jtypes_view(args@)),
        JType::Parameter(p) => JTypeView::Parameter(p@),
        JType::Var => JTypeView::Var,
    }
}

pub open spec fn jtypes_view(js: Seq<JType>) -> Seq<JTypeView>
    decreases js,
{
    if js.len() == 0 {
        seq![]
    } else {
        jtypes_view(js.drop_last()).push(jtype_view(js.last()))
    }
}

pub(crate) fn copy_jtypes(js: &Vec<JType>) -> (r: Vec<JType>)
    ensures
        jtypes_view(r@) == jtypes_view(js@),
    decreases js@, 0nat,
{
    let mut out: Vec<JType> = Vec::new();
    let mut k: usize = 0;
    while k < js.len()
        invariant
            k <= js.len(),
            jtypes_view(out@) == jtypes_view(js@.take(k as int)),
        decreases js.len() - k,
    {
        assert(decreases_to!(js@ => js@[k as int]));
        let c = copy_jtype(&js[k]);
        let ghost before = out@;
        out.push(c);
        proof {
            assert(out@.drop_last() =~= before);
            assert(js@.take(k + 1).drop_last() =~= js@.take(k as int));
        }
        k += 1;
    }
    assert(js@.take(k as int) =~= js@);
    out
}

fn copy_jtype(j: &JType) -> (r: JType)
    ensures
        jtype_view(r) == jtype_view(*j),
    decreases *j, 1nat,
{
    match j {
        JType::Void => JType::Void,
        JType::Byte => JType::Byte,
        JType::Char => JType::Char,
        JType::Double => JType::Double,
        JType::Float => JType::Float,
        JType::Int => JType::Int,
        JType::Long => JType::Long,
        JType::Short => JType::Short,
        JType::Boolean => JType::Boolean,
        JType::Wildcard => JType::Wildcard,
        JType::Class(c) => JType::Class(c.clone()),
        JType::Array(b) => JType::Array(Box::new(copy_jtype(b))),
        JType::Generic(c, args) => JType::Generic(c.clone(), copy_jtypes(args)),
        JType::Parameter(p) => JType::Parameter(p.clone()),
        JType::Var => JType::Var,
    }
}

impl Clone for JType {
    fn clone(&self) -> (r: Self)
        ensures
            r@ == self@,
    {
        copy_jtype(self)
    }
}

impl View for JType {
    type V = JTypeView;

    open spec fn view(&self) -> JTypeView {
        jtype_view(*self)
    }
}

/// The characters of an optional string.
pub open spec fn opt_view(o: Option<String>) -> Option<Seq<char>> {
    match o {
        Some(s) => Some(s@),
        None => None,
    }
}

pub enum ImportView {
    Package(Seq<char>),
    Class(Seq<char>),
    StaticClass(Seq<char>),
    StaticClassMethod(Seq<char>, Seq<char>),
    Prefix(Seq<char>),
    StaticPrefix(Seq<char>),
}

impl View for ImportUnit {
    type V = ImportView;

    open spec fn view(&self) -> ImportView {
        match self {
            ImportUnit::Package(p) => ImportView::Package(p@),
            ImportUnit::Class(p) => ImportView::Class(p@),
            ImportUnit::StaticClass(p) => ImportView::StaticClass(p@),
            ImportUnit::StaticClassMethod(c, m) => ImportView::StaticClassMethod(c@, m@),
            ImportUnit::Prefix(p) => ImportView::Prefix(p@),
            ImportUnit::StaticPrefix(p) => ImportView::StaticPrefix(p@),
        }
    }
}

pub open spec fn imports_view(v: Seq<ImportUnit>) -> Seq<ImportView> {
    v.map_values(|i: ImportUnit| i@)
}

pub enum SuperView {
    Empty,
    Name(Seq<char>),
    ClassPath(Seq<char>),
}

impl View for SuperClass {
    type V = SuperView;

    open spec fn view(&self) -> SuperView {
        match self {
            SuperClass::Empty => SuperView::Empty,
            SuperClass::Name(n) => SuperView::Name(n@),
            SuperClass::ClassPath(p) => SuperView::ClassPath(p@),
        }
    }
}

pub open spec fn supers_view(v: Seq<SuperClass>) -> Seq<SuperView> {
    v.map_values(|s: SuperClass| s@)
}

pub struct ParamView {
    pub name: Option<Seq<char>>,
    pub jtype: JTypeView,
}

impl View for Parameter {
    type V = ParamView;

    open spec fn view(&self) -> ParamView {
        ParamView { name: opt_view(self.name), jtype: self.jtype@ }
    }
}

pub open spec fn params_view(v: Seq<Parameter>) -> Seq<ParamView> {
    v.map_values(|p: Parameter| p@)
}

pub struct MethodView {
    pub access: u16,
    pub name: Seq<char>,
    pub parameters: Seq<ParamView>,
    pub throws: Seq<JTypeView>,
    pub ret: JTypeView,
    pub source: Option<Seq<char>>,
}

impl View for Method {
    type V = MethodView;

    open spec fn view(&self) -> MethodView {
        MethodView {
            access: self.access.bits,
            name: self.name@,
            parameters: params_view(self.parameters@),
            throws: jtypes_view(self.throws@),
            ret: self.ret@,
            source: opt_view(self.source),
        }
    }
}

pub open spec fn methods_view(v: Seq<Method>) -> Seq<MethodView> {
    v.map_values(|m: Method| m@)
}

pub struct FieldView {
    pub access: u16,
    pub name: Seq<char>,
    pub jtype: JTypeView,
    pub source: Option<Seq<char>>,
}

impl View for Field {
    type V = FieldView;

    open spec fn view(&self) -> FieldView {
        FieldView {
            access: self.access.bits,
            name: self.name@,
            jtype: self.jtype@,
            source: opt_view(self.source),
        }
    }
}

pub open spec fn fields_view(v: Seq<Field>) -> Seq<FieldView> {
    v.map_values(|f: Field| f@)
}

pub struct ClassView {
    pub class_path: Seq<char>,
    pub source: Seq<char>,
    pub access: u16,
    pub imports: Seq<ImportView>,
    pub name: Seq<char>,
    pub methods: Seq<MethodView>,
    pub fields: Seq<FieldView>,
    pub super_class: SuperView,
    pub super_interfaces: Seq<SuperView>,
}

impl View for Class {
    type V = ClassView;

    open spec fn view(&self) -> ClassView {
        ClassView {
            class_path: self.class_path@,
            source: self.source@,
            access: self.access.bits,
            imports: imports_view(self.imports@),
            name: self.name@,
            methods: methods_view(self.methods@),
            fields: fields_view(self.fields@),
            super_class: self.super_class@,
            super_interfaces: supers_view(self.super_interfaces@),
        }
    }
}

/// How a type is written for people: `java.lang.` is left off class
/// names, arrays get `[]`, generics list their arguments in `<>` with `, `
/// between them, and type parameters stand in `<>`.
pub open spec fn display(j: JTypeView) -> Seq<char>
    decreases j,
{
    match j {
        JTypeView::Void => "void"@,
        JTypeView::Byte => "byte"@,
        JTypeView::Char => "char"@,
        JTypeView::Double => "double"@,
        JTypeView::Float => "float"@,
        JTypeView::Int => "int"@,
        JTypeView::Long => "long"@,
        JTypeView::Short => "short"@,
        JTypeView::Boolean => "boolean"@,
        JTypeView::Wildcard => "?"@,
        JTypeView::Class(c) => if starts_with(c, "java.lang."@) {
            trim_start_matches(c, "java.lang."@)
        } else {
            c
        },
        JTypeView::Array(i) => display(*i) + "[]"@,
        JTypeView::Generic(c, args) => c + "<"@ + display_list(args) + ">"@,
        JTypeView::Parameter(p) => "<"@ + p + ">"@,
        JTypeView::Var => "var"@,
    }
}

/// The displays of several types with `, ` between them.
pub open spec fn display_list(js: Seq<JTypeView>) -> Seq<char>
    decreases js,
{
    if js.len() == 0 {
        seq![]
    } else if js.len() == 1 {
        display(js[0])
    } else {
        display_list(js.drop_last()) + ", "@ + display(js.last())
    }
}

pub proof fn lemma_jtypes_view_len(js: Seq<JType>)
    ensures
        jtypes_view(js).len() == js.len(),
        forall|k: int| 0 <= k < js.len() ==> #[trigger] jtypes_view(js)[k] == jtype_view(js[k]),
    decreases js.len(),
{
    if js.len() > 0 {
        lemma_jtypes_view_len(js.drop_last());
        assert forall|k: int| 0 <= k < js.len() implies #[trigger] jtypes_view(js)[k] == jtype_view(js[k]) by {
            if k < js.len() - 1 {
                assert(js.drop_last()[k] == js[k]);
            }
        }
    }
}

fn write_display_list(js: &Vec<JType>, out: &mut String)
    ensures
        final(out)@ == old(out)@ + display_list(jtypes_view(js@)),
    decreases js@, 0nat,
{
    let ghost start = out@;
    proof {
        lemma_jtypes_view_len(js@);
    }
    let mut k: usize = 0;
    assert(jtypes_view(js@).take(0) =~= Seq::<JTypeView>::empty());
    assert(out@ =~= start + display_list(jtypes_view(js@).take(0)));
    while k < js.len()
        invariant
            k <= js.len(),
            jtypes_view(js@).len() == js@.len(),
            forall|i: int| 0 <= i < js@.len() ==> #[trigger] jtypes_view(js@)[i] == jtype_view(js@[i]),
            out@ == start + display_list(jtypes_view(js@).take(k as int)),
        decreases js.len() - k,
    {
        let ghost vs = jtypes_view(js@);
        if k > 0 {
            out.append(", ");
        }
        assert(decreases_to!(js@ => js@[k as int]));
        write_display(&js[k], out);
        proof {
            let t = vs.take(k + 1);
            assert(t.drop_last() =~= vs.take(k as int));
            assert(t.last() == jtype_view(js@[k as int]));
            if k == 0 {
                assert(display_list(t) == display(t[0]));
                assert(display_list(vs.take(0)) =~= Seq::<char>::empty());
                assert(out@ =~= start + display_list(t));
            } else {
                assert(out@ =~= start + display_list(t));
            }
        }
        k += 1;
    }
    assert(jtypes_view(js@).take(k as int) =~= jtypes_view(js@));
}

/// Appends how `j` is written for people.
fn write_display(j: &JType, out: &mut String)
    ensures
        final(out)@ == old(out)@ + display(j@),
    decreases *j, 1nat,
{
    match j {
        JType::Void => out.append("void"),
        JType::Byte => out.append("byte"),
        JType::Char => out.append("char"),
        JType::Double => out.append("double"),
        JType::Float => out.append("float"),
        JType::Int => out.append("int"),
        JType::Long => out.append("long"),
        JType::Short => out.append("short"),
        JType::Boolean => out.append("boolean"),
        JType::Wildcard => out.append("?"),
        JType::Class(c) => {
            let v = chars_of(c.as_str());
            let prefix = chars_of("java.lang.");
            if starts_with_exec(&v, &prefix) {
                let t = trim_start_matches_exec(&v, &prefix);
                let ts = string_of(&t, 0, t.len());
                assert(t@.subrange(0, t@.len() as int) =~= t@);
                out.append(ts.as_str());
            } else {
                out.append(c.as_str());
            }
        },
        JType::Array(b) => {
            let ghost before = out@;
            write_display(b, out);
            out.append("[]");
            assert(out@ =~= before + (display(jtype_view(**b)) + "[]"@));
        },
        JType::Generic(c, args) => {
            let ghost before = out@;
            out.append(c.as_str());
            out.append("<");
            write_display_list(args, out);
            out.append(">");
            assert(out@ =~= before + (c@ + "<"@ + display_list(jtypes_view(args@)) + ">"@));
        },
        JType::Parameter(p) => {
            let ghost before = out@;
            out.append("<");
            out.append(p.as_str());
            out.append(">");
            assert(out@ =~= before + ("<"@ + p@ + ">"@));
        },
        JType::Var => out.append("var"),
    }
}

impl JType {
    /// How the type is written for people (see `display`).
    pub fn display_string(&self) -> (r: String)
        ensures
            r@ == display(self@),
    {
        let mut out = String::new();
        write_display(self, &mut out);
        assert(out@ =~= display(self@));
        out
    }
}


pub(crate) fn copy_opt_string(s: &Option<String>) -> (r: Option<String>)
    ensures
        opt_view(r) == opt_view(*s),
{
    match s {
        Some(x) => Some(x.clone()),
        None => None,
    }
}

pub(crate) fn copy_param(p: &Parameter) -> (r: Parameter)
    ensures
        r@ == p@,
{
    Parameter { name: copy_opt_string(&p.name), jtype: p.jtype.clone() }
}

pub(crate) fn copy_method(m: &Method) -> (r: Method)
    ensures
        r@ == m@,
{
    let mut ps: Vec<Parameter> = Vec::new();
    let mut k: usize = 0;
    while k < m.parameters.len()
        invariant
            k <= m.parameters.len(),
            params_view(ps@) == params_view(m.parameters@.take(k as int)),
        decreases m.parameters.len() - k,
    {
        let ghost before = ps@;
        ps.push(copy_param(&m.parameters[k]));
        proof {
            assert(params_view(ps@) =~= params_view(before).push(m.parameters@[k as int]@));
            assert(params_view(m.parameters@.take(k + 1)) =~= params_view(m.parameters@.take(k as int)).push(m.parameters@[k as int]@));
        }
        k += 1;
    }
    assert(m.parameters@.take(k as int) =~= m.parameters@);
    Method {
        access: m.access,
        name: m.name.clone(),
        parameters: ps,
        throws: copy_jtypes(&m.throws),
        ret: m.ret.clone(),
        source: copy_opt_string(&m.source),
    }
}

pub(crate) fn copy_field(f: &Field) -> (r: Field)
    ensures
        r@ == f@,
{
    Field { access: f.access, name: f.name.clone(), jtype: f.jtype.clone(), source: copy_opt_string(&f.source) }
}

pub(crate) fn copy_import(i: &ImportUnit) -> (r: ImportUnit)
    ensures
        r@ == i@,
{
    match i {
        ImportUnit::Package(p) => ImportUnit::Package(p.clone()),
        ImportUnit::Class(p) => ImportUnit::Class(p.clone()),
        ImportUnit::StaticClass(p) => ImportUnit::StaticClass(p.clone()),
        ImportUnit::StaticClassMethod(c, m) => ImportUnit::StaticClassMethod(c.clone(), m.clone()),
        ImportUnit::Prefix(p) => ImportUnit::Prefix(p.clone()),
        ImportUnit::StaticPrefix(p) => ImportUnit::StaticPrefix(p.clone()),
    }
}

pub(crate) fn copy_super(s: &SuperClass) -> (r: SuperClass)
    ensures
        r@ == s@,
{
    match s {
        SuperClass::Empty => SuperClass::Empty,
        SuperClass::Name(n) => SuperClass::Name(n.clone()),
        SuperClass::ClassPath(p) => SuperClass::ClassPath(p.clone()),
    }
}

/// A class with the same value as `c`.
pub(crate) fn copy_class(c: &Class) -> (r: Class)
    ensures
        r@ == c@,
{
    let mut imports: Vec<ImportUnit> = Vec::new();
    let mut k: usize = 0;
    while k < c.imports.len()
        invariant
            k <= c.imports.len(),
            imports_view(imports@) == imports_view(c.imports@.take(k as int)),
        decreases c.imports.len() - k,
    {
        let ghost before = imports@;
        imports.push(copy_import(&c.imports[k]));
        proof {
            assert(imports_view(imports@) =~= imports_view(before).push(c.imports@[k as int]@));
            assert(imports_view(c.imports@.take(k + 1)) =~= imports_view(c.imports@.take(k as int)).push(c.imports@[k as int]@));
        }
        k += 1;
    }
    assert(c.imports@.take(k as int) =~= c.imports@);
    let mut methods: Vec<Method> = Vec::new();
    let mut k: usize = 0;
    while k < c.methods.len()
        invariant
            k <= c.methods.len(),
            methods_view(methods@) == methods_view(c.methods@.take(k as int)),
        decreases c.methods.len() - k,
    {
        let ghost before = methods@;
        methods.push(copy_method(&c.methods[k]));
        proof {
            assert(methods_view(methods@) =~= methods_view(before).push(c.methods@[k as int]@));
            assert(methods_view(c.methods@.take(k + 1)) =~= methods_view(c.methods@.take(k as int)).push(c.methods@[k as int]@));
        }
        k += 1;
    }
    assert(c.methods@.take(k as int) =~= c.methods@);
    let mut fields: Vec<Field> = Vec::new();
    let mut k: usize = 0;
    while k < c.fields.len()
        invariant
            k <= c.fields.len(),
            fields_view(fields@) == fields_view(c.fields@.take(k as int)),
        decreases c.fields.len() - k,
    {
        let ghost before = fields@;
        fields.push(copy_field(&c.fields[k]));
        proof {
            assert(fields_view(fields@) =~= fields_view(before).push(c.fields@[k as int]@));
            assert(fields_view(c.fields@.take(k + 1)) =~= fields_view(c.fields@.take(k as int)).push(c.fields@[k as int]@));
        }
        k += 1;
    }
    assert(c.fields@.take(k as int) =~= c.fields@);
    let mut supers: Vec<SuperClass> = Vec::new();
    let mut k: usize = 0;
    while k < c.super_interfaces.len()
        invariant
            k <= c.super_interfaces.len(),
            supers_view(supers@) == supers_view(c.super_interfaces@.take(k as int)),
        decreases c.super_interfaces.len() - k,
    {
        let ghost before = supers@;
        supers.push(copy_super(&c.super_interfaces[k]));
        proof {
            assert(supers_view(supers@) =~= supers_view(before).push(c.super_interfaces@[k as int]@));
            assert(supers_view(c.super_interfaces@.take(k + 1)) =~= supers_view(c.super_interfaces@.take(k as int)).push(c.super_interfaces@[k as int]@));
        }
        k += 1;
    }
    assert(c.super_interfaces@.take(k as int) =~= c.super_interfaces@);
    Class {
        class_path: c.class_path.clone(),
        source: c.source.clone(),
        access: c.access,
        imports,
        name: c.name.clone(),
        methods,
        fields,
        super_class: copy_super(&c.super_class),
        super_interfaces: supers,
    }
}

} // verus!
