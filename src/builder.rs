//! The semantic builder: one depth-first walk of the syntax tree that lifts
//! nested declarations to a flat list under qualified names, flattens
//! `oneof` groups into their message, resolves field types and decodes
//! literals.

use crate::literal::{enum_number, enum_number_of, tag_number, tag_of};
use crate::model::{Enum, EnumValue, Field, FieldType, Message, ProtoModel, ScalarType, TypeDecl};
use crate::syntax::{
    definition_view, definitions_view, enum_node_view, field_node_view, fields_view, file_view,
    items_view, lemma_items_view_index, lemma_items_view_len, message_node_view, opt_string_view,
    parse_spec, Definition, DefinitionV, EnumNode, EnumNodeV, FieldNode, FieldNodeV, ItemV,
    MessageItem, MessageNode, MessageNodeV, ParseError, ProtoFile, ProtoFileV, ProtoParser, TypeNode,
};
use crate::text::{concat, contains_char, str_eq};
use vstd::prelude::*;
use vstd::string::StringExecFns;

verus! {

broadcast use vstd::string::group_string_axioms;

/// The mathematical form of a field type.
pub enum FieldTypeV {
    Scalar(ScalarType),
    Custom(Seq<char>),
}

/// The mathematical form of a field.
pub struct FieldV {
    pub ty: FieldTypeV,
    pub name: Seq<char>,
    pub order: u32,
}

/// The mathematical form of a declaration of the model.
pub enum DeclV {
    Message { name: Seq<char>, fields: Seq<FieldV> },
    Enum { name: Seq<char>, values: Seq<(Seq<char>, i32)> },
}

pub open spec fn field_type_view(t: FieldType) -> FieldTypeV {
    match t {
        FieldType::Scalar(s) => FieldTypeV::Scalar(s),
        FieldType::Custom(n) => FieldTypeV::Custom(n@),
    }
}

pub open spec fn field_view(f: Field) -> FieldV {
    FieldV { ty: field_type_view(f.ty), name: f.name@, order: f.order }
}

pub open spec fn decl_view(t: TypeDecl) -> DeclV {
    match t {
        TypeDecl::Message(m) => DeclV::Message {
            name: m.name@,
            fields: m.fields@.map_values(|f: Field| field_view(f)),
        },
        TypeDecl::Enum(e) => DeclV::Enum {
            name: e.name@,
            values: e.values@.map_values(|v: EnumValue| (v.name@, v.number)),
        },
    }
}

pub open spec fn decls_view(ts: Seq<TypeDecl>) -> Seq<DeclV> {
    ts.map_values(|t: TypeDecl| decl_view(t))
}

pub open spec fn opt_view(o: Option<&str>) -> Option<Seq<char>> {
    match o {
        Some(p) => Some(p@),
        None => None,
    }
}

/// The qualified name of `name` declared inside `parent`, if any.
pub open spec fn qualified(parent: Option<Seq<char>>, name: Seq<char>) -> Seq<char> {
    match parent {
        Some(p) => p + "."@ + name,
        None => name,
    }
}

/// The scalar that a type keyword names, if it is one.
pub open spec fn scalar_of(t: Seq<char>) -> Option<ScalarType> {
    if t == "double"@ { Some(ScalarType::Double) }
    else if t == "float"@ { Some(ScalarType::Float) }
    else if t == "int32"@ { Some(ScalarType::Int32) }
    else if t == "int64"@ { Some(ScalarType::Int64) }
    else if t == "uint32"@ { Some(ScalarType::Uint32) }
    else if t == "uint64"@ { Some(ScalarType::Uint64) }
    else if t == "sint32"@ { Some(ScalarType::Sint32) }
    else if t == "sint64"@ { Some(ScalarType::Sint64) }
    else if t == "fixed32"@ { Some(ScalarType::Fixed32) }
    else if t == "fixed64"@ { Some(ScalarType::Fixed64) }
    else if t == "sfixed32"@ { Some(ScalarType::Sfixed32) }
    else if t == "sfixed64"@ { Some(ScalarType::Sfixed64) }
    else if t == "bool"@ { Some(ScalarType::Bool) }
    else if t == "string"@ { Some(ScalarType::String) }
    else if t == "bytes"@ { Some(ScalarType::Bytes) }
    else { None }
}

/// The simple name that a message item declares, if it declares one.
pub open spec fn item_decl_name(it: ItemV) -> Option<Seq<char>> {
    match it {
        ItemV::Message(m) => Some(m.name),
        ItemV::Enum(e) => Some(e.name),
        _ => None,
    }
}

/// Whether a message body directly declares a message or enum named `n`.
pub open spec fn declares(items: Seq<ItemV>, n: Seq<char>) -> bool {
    exists|i: int| 0 <= i < items.len() && item_decl_name(#[trigger] items[i]) == Some(n)
}

/// How a field's type, written `text` (absolute where it had a leading
/// `.`), resolves inside the message `scope` with body `items`: a scalar
/// keyword is a scalar; an absolute reference loses its leading `.`; a name
/// without `.` that the message itself declares is qualified by the
/// message's name; any other name is kept as written.
pub open spec fn resolve(absolute: bool, text: Seq<char>, scope: Seq<char>, items: Seq<ItemV>) -> FieldTypeV {
    if !absolute && scalar_of(text) is Some {
        FieldTypeV::Scalar(scalar_of(text)->0)
    } else if !absolute && !text.contains('.') && declares(items, text) {
        FieldTypeV::Custom(scope + "."@ + text)
    } else {
        FieldTypeV::Custom(text)
    }
}

pub open spec fn field_of(f: FieldNodeV, scope: Seq<char>, items: Seq<ItemV>) -> FieldV {
    FieldV { ty: resolve(f.absolute, f.text, scope, items), name: f.name, order: tag_of(f.tag) }
}

/// The fields that one item contributes: a field itself, or every field of
/// a `oneof` group in order.
pub open spec fn item_fields(it: ItemV, scope: Seq<char>, items: Seq<ItemV>) -> Seq<FieldV> {
    match it {
        ItemV::Field(f) => seq![field_of(f, scope, items)],
        ItemV::Oneof(fs) => fs.map_values(|f: FieldNodeV| field_of(f, scope, items)),
        _ => Seq::empty(),
    }
}

/// The fields of the first `k` items of a message body, in source order.
pub open spec fn fields_upto(items: Seq<ItemV>, k: nat, scope: Seq<char>) -> Seq<FieldV>
    decreases k,
{
    if k == 0 || k > items.len() {
        Seq::empty()
    } else {
        fields_upto(items, (k - 1) as nat, scope) + item_fields(items[k - 1], scope, items)
    }
}

pub open spec fn enum_decl(e: EnumNodeV, parent: Option<Seq<char>>) -> DeclV {
    DeclV::Enum {
        name: qualified(parent, e.name),
        values: e.values.map_values(|v: (Seq<char>, Seq<char>)| (v.0, enum_number_of(v.1))),
    }
}

/// The declarations that the first `k` items of message `m` (whose
/// qualified name is `scope`) lift out, in source order.
pub open spec fn nested_upto(m: MessageNodeV, k: nat, scope: Seq<char>) -> Seq<DeclV>
    decreases m, k,
{
    if k == 0 || k > m.items.len() {
        Seq::empty()
    } else {
        let prev = nested_upto(m, (k - 1) as nat, scope);
        match m.items[k - 1] {
            ItemV::Message(sub) => prev + message_decls(sub, Some(scope)),
            ItemV::Enum(e) => prev + seq![enum_decl(e, Some(scope))],
            _ => prev,
        }
    }
}

/// The declarations that a message yields: everything nested in it, in
/// source order, then the message itself with its flattened fields.
pub open spec fn message_decls(m: MessageNodeV, parent: Option<Seq<char>>) -> Seq<DeclV>
    decreases m, m.items.len() + 1,
{
    let q = qualified(parent, m.name);
    nested_upto(m, m.items.len(), q) + seq![
        DeclV::Message { name: q, fields: fields_upto(m.items, m.items.len(), q) },
    ]
}

pub open spec fn definition_decls(d: DefinitionV) -> Seq<DeclV> {
    match d {
        DefinitionV::Message(m) => message_decls(m, None),
        DefinitionV::Enum(e) => seq![enum_decl(e, None)],
    }
}

pub open spec fn definitions_upto(ds: Seq<DefinitionV>, k: nat) -> Seq<DeclV>
    decreases k,
{
    if k == 0 || k > ds.len() {
        Seq::empty()
    } else {
        definitions_upto(ds, (k - 1) as nat) + definition_decls(ds[k - 1])
    }
}

/// The declarations of a whole file, in order.
pub open spec fn file_decls(f: ProtoFileV) -> Seq<DeclV> {
    definitions_upto(f.definitions, f.definitions.len())
}

/// Joins the qualified name of the enclosing message, if any, and a simple
/// name with `.`.
pub fn qualify(parent: Option<&str>, name: &str) -> (r: String)
    ensures
        r@ == qualified(opt_view(parent), name@),
{
    match parent {
        Some(p) => {
            let mut s = concat(p, ".");
            s.append(name);
            s
        },
        None => String::from_str(name),
    }
}

/// The scalar that a type keyword names, if it is one.
pub fn parse_scalar_type(s: &str) -> (r: Option<ScalarType>)
    ensures
        r == scalar_of(s@),
{
    if str_eq(s, "double") { Some(ScalarType::Double) }
    else if str_eq(s, "float") { Some(ScalarType::Float) }
    else if str_eq(s, "int32") { Some(ScalarType::Int32) }
    else if str_eq(s, "int64") { Some(ScalarType::Int64) }
    else if str_eq(s, "uint32") { Some(ScalarType::Uint32) }
    else if str_eq(s, "uint64") { Some(ScalarType::Uint64) }
    else if str_eq(s, "sint32") { Some(ScalarType::Sint32) }
    else if str_eq(s, "sint64") { Some(ScalarType::Sint64) }
    else if str_eq(s, "fixed32") { Some(ScalarType::Fixed32) }
    else if str_eq(s, "fixed64") { Some(ScalarType::Fixed64) }
    else if str_eq(s, "sfixed32") { Some(ScalarType::Sfixed32) }
    else if str_eq(s, "sfixed64") { Some(ScalarType::Sfixed64) }
    else if str_eq(s, "bool") { Some(ScalarType::Bool) }
    else if str_eq(s, "string") { Some(ScalarType::String) }
    else if str_eq(s, "bytes") { Some(ScalarType::Bytes) }
    else { None }
}

/// Whether a message body directly declares a message or enum named `n`.
fn declares_nested(items: &Vec<MessageItem>, n: &str) -> (r: bool)
    ensures
        r == declares(items_view(items@, items@.len()), n@),
{
    let ghost iv = items_view(items@, items@.len());
    proof {
        lemma_items_view_len(items@, items@.len());
    }
    let mut i: usize = 0;
    while i < items.len()
        invariant
            i <= items@.len(),
            iv == items_view(items@, items@.len()),
            iv.len() == items@.len(),
            forall|j: int| 0 <= j < i ==> item_decl_name(#[trigger] iv[j]) != Some(n@),
        decreases items@.len() - i,
    {
        proof {
            lemma_items_view_index(items@, items@.len(), i as int);
        }
        let found = match &items[i] {
            MessageItem::Message(m) => str_eq(m.name.as_str(), n),
            MessageItem::Enum(e) => str_eq(e.name.as_str(), n),
            _ => false,
        };
        if found {
            assert(item_decl_name(iv[i as int]) == Some(n@));
            return true;
        }
        i = i + 1;
    }
    false
}

/// Resolves the type of a field declared in the message `scope`.
fn resolve_field_type(t: &TypeNode, scope: &str, items: &Vec<MessageItem>) -> (r: FieldType)
    ensures
        field_type_view(r) == resolve(t.absolute, t.text@, scope@, items_view(items@, items@.len())),
{
    if !t.absolute {
        match parse_scalar_type(t.text.as_str()) {
            Some(st) => { return FieldType::Scalar(st); },
            None => {},
        }
        if !contains_char(t.text.as_str(), '.') && declares_nested(items, t.text.as_str()) {
            return FieldType::Custom(qualify(Some(scope), t.text.as_str()));
        }
    }
    FieldType::Custom(t.text.clone())
}

/// The model field of a field statement of the message `scope`.
fn parse_field(f: &FieldNode, scope: &str, items: &Vec<MessageItem>) -> (r: Field)
    ensures
        field_view(r) == field_of(field_node_view(*f), scope@, items_view(items@, items@.len())),
{
    let ty = resolve_field_type(&f.ty, scope, items);
    Field { ty, name: f.name.clone(), order: tag_number(f.tag.as_str()) }
}

proof fn lemma_decls_push(ts: Seq<TypeDecl>, t: TypeDecl)
    ensures
        decls_view(ts.push(t)) == decls_view(ts).push(decl_view(t)),
{
    assert(decls_view(ts.push(t)) =~= decls_view(ts).push(decl_view(t)));
}

/// Appends the enum `e`, declared inside `parent` if any, to `types`.
fn parse_enum_block(e: &EnumNode, parent: Option<&str>, types: &mut Vec<TypeDecl>)
    ensures
        decls_view(final(types)@) == decls_view(old(types)@) + seq![enum_decl(enum_node_view(*e), opt_view(parent))],
{
    let mut values: Vec<EnumValue> = Vec::new();
    let mut i: usize = 0;
    while i < e.values.len()
        invariant
            i <= e.values@.len(),
            values@.len() == i,
            forall|j: int|
                0 <= j < i ==> (#[trigger] values@[j]).name@ == e.values@[j].name@
                    && values@[j].number == enum_number_of(e.values@[j].value@),
        decreases e.values@.len() - i,
    {
        let v = &e.values[i];
        values.push(EnumValue { name: v.name.clone(), number: enum_number(v.value.as_str()) });
        i = i + 1;
    }
    let name = qualify(parent, e.name.as_str());
    let en = Enum { name, values };
    proof {
        assert(en.values@.map_values(|v: EnumValue| (v.name@, v.number)) =~= enum_node_view(*e).values.map_values(
            |v: (Seq<char>, Seq<char>)| (v.0, enum_number_of(v.1)),
        ));
        lemma_decls_push(types@, TypeDecl::Enum(en));
    }
    types.push(TypeDecl::Enum(en));
}

/// Appends the declarations of the message `m`, declared inside `parent` if
/// any, to `types`: first those nested in it, in source order, then the
/// message itself.
fn parse_message_block(m: &MessageNode, parent: Option<&str>, types: &mut Vec<TypeDecl>)
    ensures
        decls_view(final(types)@) == decls_view(old(types)@) + message_decls(message_node_view(*m), opt_view(parent)),
    decreases m,
{
    let name = qualify(parent, m.name.as_str());
    let ghost q = name@;
    let ghost mv = message_node_view(*m);
    let ghost items = m.items@;
    let ghost iv = mv.items;
    let ghost start = decls_view(types@);
    proof {
        lemma_items_view_len(items, items.len());
    }
    let mut fields: Vec<Field> = Vec::new();
    let mut i: usize = 0;
    while i < m.items.len()
        invariant
            i <= items.len(),
            items == m.items@,
            mv == message_node_view(*m),
            iv == mv.items,
            iv == items_view(items, items.len()),
            iv.len() == items.len(),
            q == name@,
            q == qualified(opt_view(parent), m.name@),
            start == decls_view(old(types)@),
            decls_view(types@) == start + nested_upto(mv, i as nat, q),
            fields@.map_values(|f: Field| field_view(f)) == fields_upto(iv, i as nat, q),
        decreases items.len() - i,
    {
        proof {
            lemma_items_view_index(items, items.len(), i as int);
        }
        let ghost before_fields = fields@.map_values(|f: Field| field_view(f));
        match &m.items[i] {
            MessageItem::Field(f) => {
                let fld = parse_field(f, name.as_str(), &m.items);
                fields.push(fld);
                assert(fields@.map_values(|f: Field| field_view(f)) =~= before_fields.push(field_view(fld)));
            },
            MessageItem::Oneof(fs) => {
                let mut j: usize = 0;
                while j < fs.len()
                    invariant
                        j <= fs@.len(),
                        items == m.items@,
                        iv == items_view(items, items.len()),
                        q == name@,
                        fields@.map_values(|f: Field| field_view(f)) == before_fields + fs@.subrange(0, j as int).map_values(
                            |f: FieldNode| field_of(field_node_view(f), q, iv),
                        ),
                    decreases fs@.len() - j,
                {
                    let ghost prev = fields@.map_values(|f: Field| field_view(f));
                    let fld = parse_field(&fs[j], name.as_str(), &m.items);
                    fields.push(fld);
                    assert(fields@.map_values(|f: Field| field_view(f)) =~= prev.push(field_view(fld)));
                    assert(fs@.subrange(0, j + 1).map_values(|f: FieldNode| field_of(field_node_view(f), q, iv)) =~= fs@.subrange(0, j as int).map_values(
                        |f: FieldNode| field_of(field_node_view(f), q, iv),
                    ).push(field_of(field_node_view(fs@[j as int]), q, iv)));
                    j = j + 1;
                }
                assert(fs@.subrange(0, fs@.len() as int) =~= fs@);
                assert(fs@.map_values(|f: FieldNode| field_of(field_node_view(f), q, iv)) =~= fields_view(fs@).map_values(
                    |f: FieldNodeV| field_of(f, q, iv),
                ));
            },
            MessageItem::Message(sub) => {
                parse_message_block(sub, Some(name.as_str()), types);
            },
            MessageItem::Enum(e) => {
                parse_enum_block(e, Some(name.as_str()), types);
            },
        }
        assert(decls_view(types@) =~= start + nested_upto(mv, (i + 1) as nat, q));
        assert(fields@.map_values(|f: Field| field_view(f)) =~= fields_upto(iv, (i + 1) as nat, q));
        i = i + 1;
    }
    let msg = Message { name, fields };
    proof {
        lemma_decls_push(types@, TypeDecl::Message(msg));
    }
    types.push(TypeDecl::Message(msg));
    assert(decls_view(types@) =~= decls_view(old(types)@) + message_decls(mv, opt_view(parent)));
}

/// Builds the model of a parsed file: its package, and every declaration
/// lifted into one flat list in the order of the walk.
pub fn parse_proto(file: &ProtoFile) -> (r: ProtoModel)
    ensures
        r.package == file.package,
        decls_view(r.types@) == file_decls(file_view(*file)),
{
    let ghost ds = definitions_view(file.definitions@);
    let mut types: Vec<TypeDecl> = Vec::new();
    let mut i: usize = 0;
    while i < file.definitions.len()
        invariant
            i <= file.definitions@.len(),
            ds == definitions_view(file.definitions@),
            decls_view(types@) == definitions_upto(ds, i as nat),
        decreases file.definitions@.len() - i,
    {
        assert(ds[i as int] == definition_view(file.definitions@[i as int]));
        match &file.definitions[i] {
            Definition::Message(m) => parse_message_block(m, None, &mut types),
            Definition::Enum(e) => parse_enum_block(e, None, &mut types),
        }
        assert(decls_view(types@) =~= definitions_upto(ds, (i + 1) as nat));
        i = i + 1;
    }
    let package = match &file.package {
        Some(p) => Some(p.clone()),
        None => None,
    };
    ProtoModel { package, types }
}

/// Parses source text and builds its model. Text that does not follow the
/// grammar gives a `Grammar` error and no model.
pub fn parse_proto_source(src: &str) -> (r: Result<ProtoModel, ParseError>)
    ensures
        r matches Err(e) ==> e is Grammar,
        src@.len() + 3 <= usize::MAX ==> (r is Ok <==> parse_spec(src@) is Ok),
        r matches Ok(m) ==> parse_spec(src@) matches Ok(f) && model_of(m, f),
{
    match ProtoParser::parse(src) {
        Ok(file) => {
            let m = parse_proto(&file);
            Ok(m)
        },
        Err(e) => Err(e),
    }
}

/// Whether `m` is the model of the syntax tree `f`.
pub open spec fn model_of(m: ProtoModel, f: ProtoFileV) -> bool {
    opt_string_view(m.package) == f.package && decls_view(m.types@) == file_decls(f)
}

/// A `oneof` group adds no declaration of its own, and its fields come
/// after those of the items before it, in source order.
pub proof fn oneof_fields_are_flattened(m: MessageNodeV, parent: Option<Seq<char>>)
    requires
        m.items.len() > 0,
        m.items.last() is Oneof,
    ensures
        ({
            let n = m.items.len();
            let q = qualified(parent, m.name);
            let fs = m.items.last()->Oneof_0;
            &&& nested_upto(m, n, q) == nested_upto(m, (n - 1) as nat, q)
            &&& fields_upto(m.items, n, q) == fields_upto(m.items, (n - 1) as nat, q)
                + fs.map_values(|f: FieldNodeV| field_of(f, q, m.items))
            &&& message_decls(m, parent).last() == (DeclV::Message {
                name: q,
                fields: fields_upto(m.items, n, q),
            })
        }),
{
}

} // verus!
