//! The semantic model: a package and a flat list of declarations.

use vstd::prelude::*;

verus! {

/// The scalar keywords of the interface language.
#[derive(Debug, Clone, Copy, PartialEq, Eq)]
pub enum ScalarType {
    Double,
    Float,
    Int32,
    Int64,
    Uint32,
    Uint64,
    Sint32,
    Sint64,
    Fixed32,
    Fixed64,
    Sfixed32,
    Sfixed64,
    Bool,
    String,
    Bytes,
}

/// The type of a field: a scalar, or a reference to a declared type by name
/// (simple or dot-qualified).
#[derive(Debug, Clone, PartialEq, Eq)]
pub enum FieldType {
    Scalar(ScalarType),
    Custom(String),
}

/// One field of a message; `order` is its tag number.
#[derive(Debug, Clone, PartialEq)]
pub struct Field {
    pub ty: FieldType,
    pub name: String,
    pub order: u32,
}

/// A message: its qualified name and its fields in declaration order.
#[derive(Debug, Clone, PartialEq)]
pub struct Message {
    pub name: String,
    pub fields: Vec<Field>,
}

/// One member of an enumeration.
#[derive(Debug, Clone, PartialEq)]
pub struct EnumValue {
    pub name: String,
    pub number: i32,
}

/// An enumeration: its qualified name and its members in declaration order.
#[derive(Debug, Clone, PartialEq)]
pub struct Enum {
    pub name: String,
    pub values: Vec<EnumValue>,
}

/// A top-level entry of the model. Nested declarations are lifted to
/// entries of their own; only their qualified name records the nesting.
#[derive(Debug, Clone, PartialEq)]
pub enum TypeDecl {
    Message(Message),
    Enum(Enum),
}

/// The whole model of one source file.
#[derive(Debug, Clone, PartialEq)]
pub struct ProtoModel {
    pub package: Option<String>,
    pub types: Vec<TypeDecl>,
}

} // verus!
