//! Turns a protocol-buffers style interface description into a flat
//! semantic model and renders that model as Java value classes.

pub mod builder;
pub mod literal;
pub mod model;
pub mod render;
pub mod syntax;
pub mod text;

pub use builder::{parse_proto, parse_proto_source, parse_scalar_type, qualify};
pub use literal::{decode_literal, enum_number, tag_number};
pub use model::{Enum, EnumValue, Field, FieldType, Message, ProtoModel, ScalarType, TypeDecl};
pub use render::{generate_java_from_model, generate_java_from_proto, GenerateError};
pub use syntax::{
    Definition, EnumNode, EnumValueNode, FieldNode, MessageItem, MessageNode, ParseError, ProtoFile,
    ProtoParser, TypeNode,
};
