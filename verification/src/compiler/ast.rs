//! Abstract syntax tree for parsed `.tpt-asn1` schemas, together with its
//! mathematical model: every node has a ghost counterpart in which names are
//! character sequences and lists are `Seq`s.

use vstd::prelude::*;

verus! {

/// A reference to a universal ASN.1 built-in type.
#[derive(Debug, Clone, Copy, PartialEq, Eq, Structural)]
pub enum Builtin {
    /// `BOOLEAN`
    Boolean,
    /// `INTEGER`
    Integer,
    /// `BIT STRING`
    BitString,
    /// `OCTET STRING`
    OctetString,
    /// `NULL`
    Null,
    /// `OBJECT IDENTIFIER`
    ObjectIdentifier,
    /// `RELATIVE-OID`
    RelativeOid,
    /// `UTF8String`
    Utf8String,
    /// `NumericString`
    NumericString,
    /// `PrintableString`
    PrintableString,
    /// `TeletexString`
    TeletexString,
    /// `VideotexString`
    VideotexString,
    /// `IA5String`
    Ia5String,
    /// `UTCTime`
    UtcTime,
    /// `GeneralizedTime`
    GeneralizedTime,
    /// `GraphicString`
    GraphicString,
    /// `VisibleString`
    VisibleString,
    /// `GeneralString`
    GeneralString,
    /// `UniversalString`
    UniversalString,
    /// `CHARACTER STRING`
    CharacterString,
    /// `BMPString`
    BmpString,
    /// `ObjectDescriptor`
    ObjectDescriptor,
}

/// ASN.1 tag class.
#[derive(Debug, Clone, Copy, PartialEq, Eq, Structural)]
pub enum TagClass {
    /// `UNIVERSAL`
    Universal,
    /// `APPLICATION`
    Application,
    /// `CONTEXT` (default for bare `[n]`)
    Context,
    /// `PRIVATE`
    Private,
}

/// A tag applied to a field or CHOICE alternative.
#[derive(Debug, Clone, Copy)]
pub struct TagSpec {
    /// Tag class.
    pub class: TagClass,
    /// Tag number within the class.
    pub number: u32,
    /// `true` for EXPLICIT tagging, `false` for IMPLICIT.
    pub explicit: bool,
}

/// Whether and how a field/alternative is tagged.
#[derive(Debug, Clone, Copy)]
pub enum Tagging {
    /// No explicit tagging (uses the type's natural universal tag).
    Untagged,
    /// Tagged with the given specification.
    Tagged(TagSpec),
}

/// A literal DEFAULT value.
#[derive(Debug, Clone, Copy, PartialEq, Eq, Structural)]
pub enum DefaultValue {
    /// `TRUE` / `FALSE`
    Boolean(bool),
    /// An integer literal.
    Integer(i64),
    /// `NULL`
    Null,
}

/// A type expression.
#[derive(Debug)]
pub enum Type {
    /// Reference to a named type defined in the module.
    Named(String),
    /// A universal built-in type.
    Builtin(Builtin),
    /// Inline `SEQUENCE { ... }` (only produced for the anonymous element of
    /// a `SEQUENCE OF` / `SET OF`; the language otherwise requires named
    /// compounds).
    Sequence(Vec<Field>),
    /// Inline `SET { ... }`.
    SetType(Vec<Field>),
    /// Inline `CHOICE { ... }`.
    Choice(Vec<Field>),
    /// `SEQUENCE OF <Type>`.
    SequenceOf(Box<Type>),
    /// `SET OF <Type>`.
    SetOf(Box<Type>),
}

/// A field of a `SEQUENCE`, `SET`, or `CHOICE`.
#[derive(Debug)]
pub struct Field {
    /// Field name (e.g. `commonName`).
    pub name: String,
    /// Field type.
    pub ty: Type,
    /// Tagging applied to this field.
    pub tagging: Tagging,
    /// `OPTIONAL` flag.
    pub optional: bool,
    /// `DEFAULT` value, if any.
    pub default: Option<DefaultValue>,
}

/// An `ENUMERATED` variant.
#[derive(Debug)]
pub struct EnumVariant {
    /// Variant identifier.
    pub name: String,
    /// Associated integer value.
    pub number: i64,
}

/// A top-level type definition body.
#[derive(Debug)]
pub enum TypeDef {
    /// `SEQUENCE { ... }`
    Sequence(Vec<Field>),
    /// `SET { ... }`
    SetType(Vec<Field>),
    /// `CHOICE { ... }`
    Choice(Vec<Field>),
    /// `ENUMERATED { ... }`
    Enumerated(Vec<EnumVariant>),
    /// An alias to a built-in, named, or `OF` type.
    Alias(Type),
}

/// A `Name ::= <Type>` assignment.
#[derive(Debug)]
pub struct TypeAssignment {
    /// The defined type name.
    pub name: String,
    /// The definition body.
    pub def: TypeDef,
}

/// A parsed schema (one or more modules merged).
#[derive(Debug)]
pub struct Schema {
    /// The (last) module name encountered.
    pub module: String,
    /// All type assignments across the schema.
    pub types: Vec<TypeAssignment>,
}

// ---------------------------------------------------------------------------
// The model
// ---------------------------------------------------------------------------

/// Model of a [`Type`].
pub ghost enum TypeModel {
    Named(Seq<char>),
    Builtin(Builtin),
    Sequence(Seq<FieldModel>),
    SetType(Seq<FieldModel>),
    Choice(Seq<FieldModel>),
    SequenceOf(Box<TypeModel>),
    SetOf(Box<TypeModel>),
}

/// Model of a [`Field`].
pub ghost struct FieldModel {
    pub name: Seq<char>,
    pub ty: TypeModel,
    pub tagging: Tagging,
    pub optional: bool,
    pub default: Option<DefaultValue>,
}

/// Model of an [`EnumVariant`].
pub ghost struct EnumVariantModel {
    pub name: Seq<char>,
    pub number: i64,
}

/// Model of a [`TypeDef`].
pub ghost enum TypeDefModel {
    Sequence(Seq<FieldModel>),
    SetType(Seq<FieldModel>),
    Choice(Seq<FieldModel>),
    Enumerated(Seq<EnumVariantModel>),
    Alias(TypeModel),
}

/// Model of a [`TypeAssignment`].
pub ghost struct TypeAssignmentModel {
    pub name: Seq<char>,
    pub def: TypeDefModel,
}

/// Model of a [`Schema`].
pub ghost struct SchemaModel {
    pub module: Seq<char>,
    pub types: Seq<TypeAssignmentModel>,
}

/// The model of a type expression.
pub open spec fn type_model(t: Type) -> TypeModel
    decreases t,
{
    match t {
        Type::Named(s) => TypeModel::Named(s@),
        Type::Builtin(b) => TypeModel::Builtin(b),
        Type::Sequence(fs) => TypeModel::Sequence(fields_model(fs@)),
        Type::SetType(fs) => TypeModel::SetType(fields_model(fs@)),
        Type::Choice(fs) => TypeModel::Choice(fields_model(fs@)),
        Type::SequenceOf(inner) => TypeModel::SequenceOf(Box::new(type_model(*inner))),
        Type::SetOf(inner) => TypeModel::SetOf(Box::new(type_model(*inner))),
    }
}

/// The model of a field.
pub open spec fn field_model(f: Field) -> FieldModel
    decreases f,
{
    FieldModel {
        name: f.name@,
        ty: type_model(f.ty),
        tagging: f.tagging,
        optional: f.optional,
        default: f.default,
    }
}

/// The models of a list of fields, element by element.
pub open spec fn fields_model(fs: Seq<Field>) -> Seq<FieldModel>
    decreases fs,
{
    if fs.len() == 0 {
        Seq::empty()
    } else {
        fields_model(fs.drop_last()).push(field_model(fs.last()))
    }
}

} // verus!

verus! {

/// The model of an `ENUMERATED` variant.
pub open spec fn enum_variant_model(v: EnumVariant) -> EnumVariantModel {
    EnumVariantModel { name: v.name@, number: v.number }
}

/// The model of a type definition body.
pub open spec fn type_def_model(d: TypeDef) -> TypeDefModel {
    match d {
        TypeDef::Sequence(fs) => TypeDefModel::Sequence(fields_model(fs@)),
        TypeDef::SetType(fs) => TypeDefModel::SetType(fields_model(fs@)),
        TypeDef::Choice(fs) => TypeDefModel::Choice(fields_model(fs@)),
        TypeDef::Enumerated(vs) => TypeDefModel::Enumerated(
            vs@.map_values(|v: EnumVariant| enum_variant_model(v)),
        ),
        TypeDef::Alias(t) => TypeDefModel::Alias(type_model(t)),
    }
}

/// The model of a type assignment.
pub open spec fn type_assignment_model(a: TypeAssignment) -> TypeAssignmentModel {
    TypeAssignmentModel { name: a.name@, def: type_def_model(a.def) }
}

/// The models of a list of type assignments.
pub open spec fn assignments_model(s: Seq<TypeAssignment>) -> Seq<TypeAssignmentModel> {
    s.map_values(|a: TypeAssignment| type_assignment_model(a))
}

impl View for Type {
    type V = TypeModel;

    open spec fn view(&self) -> TypeModel {
        type_model(*self)
    }
}

impl View for Field {
    type V = FieldModel;

    open spec fn view(&self) -> FieldModel {
        field_model(*self)
    }
}

impl View for TypeDef {
    type V = TypeDefModel;

    open spec fn view(&self) -> TypeDefModel {
        type_def_model(*self)
    }
}

impl View for TypeAssignment {
    type V = TypeAssignmentModel;

    open spec fn view(&self) -> TypeAssignmentModel {
        type_assignment_model(*self)
    }
}

impl View for Schema {
    type V = SchemaModel;

    open spec fn view(&self) -> SchemaModel {
        SchemaModel { module: self.module@, types: assignments_model(self.types@) }
    }
}

/// Appending a field appends its model.
pub proof fn lemma_fields_model_push(fs: Seq<Field>, f: Field)
    ensures
        fields_model(fs.push(f)) == fields_model(fs).push(field_model(f)),
{
    assert(fs.push(f).drop_last() =~= fs);
}

} // verus!
