use proto_to_pojo::{
    parse_proto_source, Definition, Enum, FieldType, Message, MessageItem, MessageNode, ParseError,
    ProtoFile, ProtoModel, ProtoParser, ScalarType, TypeDecl,
};

const ORDER_PROTO: &str = r#"
syntax = "proto3";

package me.alekseinovikov.proto;

// An order with its items.
message Order {
  int32 id = 1;
  string name = 2;
  repeated OrderItem items = 3;
  oneof details {
    Address shipping_address = 4;
    Status status = 5;
  }

  message Address {
    string street = 1;
    string city = 2;
  }

  /* The life cycle of an order. */
  enum Status {
    NEW = 0;
    PAID = 1;
    SHIPPED = 2;
  }
}

message OrderItem {
  string name = 1;
  optional int64 count = 2;
  OrderItemType type = 3;
  oneof price {
    double price_decimal = 4;
    int64 price_cents = 5;
  }
}

enum OrderItemType {
  REGULAR = 0;
  DISCOUNT = 1;
}
"#;

fn get_message<'a>(model: &'a ProtoModel, name: &str) -> &'a Message {
    model
        .types
        .iter()
        .find_map(|t| match t {
            TypeDecl::Message(m) if m.name == name => Some(m),
            _ => None,
        })
        .expect("message not found")
}

fn get_enum<'a>(model: &'a ProtoModel, name: &str) -> &'a Enum {
    model
        .types
        .iter()
        .find_map(|t| match t {
            TypeDecl::Enum(e) if e.name == name => Some(e),
            _ => None,
        })
        .expect("enum not found")
}

#[test]
fn parses_order_proto_model() {
    let model = parse_proto_source(ORDER_PROTO).expect("parse failed");
    assert_eq!(model.package.as_deref(), Some("me.alekseinovikov.proto"));

    let order = get_message(&model, "Order");
    let f = |n: &str| order.fields.iter().find(|f| f.name == n).unwrap();
    assert_eq!(f("id").order, 1);
    assert!(matches!(f("id").ty, FieldType::Scalar(ScalarType::Int32)));
    assert!(matches!(f("name").ty, FieldType::Scalar(ScalarType::String)));
    assert_eq!(f("name").order, 2);
    assert_eq!(f("items").order, 3);
    assert!(matches!(f("items").ty, FieldType::Custom(ref s) if s == "OrderItem"));
    assert_eq!(f("shipping_address").order, 4);
    assert!(matches!(f("shipping_address").ty, FieldType::Custom(ref s) if s == "Order.Address"));
    assert_eq!(f("status").order, 5);
    assert!(matches!(f("status").ty, FieldType::Custom(ref s) if s == "Order.Status"));

    let addr = get_message(&model, "Order.Address");
    let f2 = |n: &str| addr.fields.iter().find(|f| f.name == n).unwrap();
    assert!(matches!(f2("street").ty, FieldType::Scalar(ScalarType::String)));
    assert!(matches!(f2("city").ty, FieldType::Scalar(ScalarType::String)));

    let item = get_message(&model, "OrderItem");
    let fi = |n: &str| item.fields.iter().find(|f| f.name == n).unwrap();
    assert!(matches!(fi("name").ty, FieldType::Scalar(ScalarType::String)));
    assert!(matches!(fi("count").ty, FieldType::Scalar(ScalarType::Int64)));
    assert!(matches!(fi("type").ty, FieldType::Custom(ref s) if s == "OrderItemType"));
    assert!(matches!(fi("price_decimal").ty, FieldType::Scalar(ScalarType::Double)));
    assert!(matches!(fi("price_cents").ty, FieldType::Scalar(ScalarType::Int64)));

    let status = get_enum(&model, "Order.Status");
    let mut status_vals: Vec<(String, i32)> =
        status.values.iter().map(|v| (v.name.clone(), v.number)).collect();
    status_vals.sort_by_key(|(_, n)| *n);
    assert_eq!(
        status_vals,
        vec![("NEW".to_string(), 0), ("PAID".to_string(), 1), ("SHIPPED".to_string(), 2)]
    );

    let item_type = get_enum(&model, "OrderItemType");
    let mut item_type_vals: Vec<(String, i32)> =
        item_type.values.iter().map(|v| (v.name.clone(), v.number)).collect();
    item_type_vals.sort_by_key(|(_, n)| *n);
    assert_eq!(item_type_vals, vec![("REGULAR".to_string(), 0), ("DISCOUNT".to_string(), 1)]);
}

#[test]
fn invalid_syntax_returns_error() {
    let content = r#"
            syntax = "proto3";
            message Order {
                int32 id = 1
                string name = 2;
            }
        "#;
    let result = parse_proto_source(content);
    assert!(result.is_err());
}

#[test]
fn parses_order_proto_successfully() {
    let file = ProtoParser::parse(ORDER_PROTO).expect("Parsing failed with an error");
    assert!(!file.definitions.is_empty(), "Parser did not return any definitions");
    assert_eq!(file.package.as_deref(), Some("me.alekseinovikov.proto"));
}

#[test]
fn fails_on_invalid_syntax() {
    let invalid_proto = r#"
            syntax = "proto3";
            message Order {
                int32 id = 1
                string name = 2;
            }
        "#;
    let result = ProtoParser::parse(invalid_proto);
    assert!(result.is_err(), "Parser should have returned an error, but it didn't");
}

#[derive(Debug, PartialEq, Eq)]
struct FieldInfo {
    modifier: Option<String>,
    field_type: String,
    name: String,
    tag: u32,
}

fn find_message<'a>(file: &'a ProtoFile, name: &str) -> &'a MessageNode {
    file.definitions
        .iter()
        .find_map(|d| match d {
            Definition::Message(m) if m.name == name => Some(m),
            _ => None,
        })
        .expect("message not found")
}

fn extract_fields_from_message(file: &ProtoFile, name: &str) -> Vec<FieldInfo> {
    find_message(file, name)
        .items
        .iter()
        .filter_map(|item| match item {
            MessageItem::Field(f) => Some(FieldInfo {
                modifier: f.modifier.clone(),
                field_type: f.ty.text.clone(),
                name: f.name.clone(),
                tag: f.tag.parse::<u32>().unwrap(),
            }),
            _ => None,
        })
        .collect()
}

#[test]
fn parses_message_fields_correctly() {
    let file = ProtoParser::parse(ORDER_PROTO).expect("Parsing failed with an error");

    let order_fields = extract_fields_from_message(&file, "Order");
    let expected_order_fields = vec![
        FieldInfo { modifier: None, field_type: "int32".to_string(), name: "id".to_string(), tag: 1 },
        FieldInfo { modifier: None, field_type: "string".to_string(), name: "name".to_string(), tag: 2 },
        FieldInfo {
            modifier: Some("repeated".to_string()),
            field_type: "OrderItem".to_string(),
            name: "items".to_string(),
            tag: 3,
        },
    ];
    assert_eq!(order_fields, expected_order_fields, "Fields in 'Order' message were parsed incorrectly");

    let order_item_fields = extract_fields_from_message(&file, "OrderItem");
    let expected_order_item_fields = vec![
        FieldInfo { modifier: None, field_type: "string".to_string(), name: "name".to_string(), tag: 1 },
        FieldInfo {
            modifier: Some("optional".to_string()),
            field_type: "int64".to_string(),
            name: "count".to_string(),
            tag: 2,
        },
        FieldInfo {
            modifier: None,
            field_type: "OrderItemType".to_string(),
            name: "type".to_string(),
            tag: 3,
        },
    ];
    assert_eq!(
        order_item_fields, expected_order_item_fields,
        "Fields in 'OrderItem' message were parsed incorrectly"
    );
}

#[test]
fn malformed_field_gives_grammar_error_with_position() {
    let result = parse_proto_source("message M {\n  int32 id = 1\n}\n");
    match result {
        Err(ParseError::Grammar { line, column, .. }) => {
            assert_eq!(line, 3);
            assert_eq!(column, 1);
        }
        other => panic!("expected a grammar error, got {:?}", other),
    }
}

#[test]
fn unterminated_comment_is_a_grammar_error() {
    assert!(matches!(ProtoParser::parse("/* open"), Err(ParseError::Grammar { .. })));
}

#[test]
fn second_package_is_a_grammar_error() {
    assert!(matches!(
        ProtoParser::parse("package a; package b;"),
        Err(ParseError::Grammar { .. })
    ));
}

#[test]
fn empty_source_gives_empty_model() {
    let model = parse_proto_source("").expect("empty source parses");
    assert_eq!(model.package, None);
    assert!(model.types.is_empty());
}

#[test]
fn nested_reference_is_qualified_by_direct_parent_only() {
    let src = "message Order { Address address = 1; message Address { string street = 1; } }";
    let model = parse_proto_source(src).unwrap();
    assert_eq!(model.types.len(), 2);
    let order = get_message(&model, "Order");
    assert!(matches!(order.fields[0].ty, FieldType::Custom(ref s) if s == "Order.Address"));
    // A grandchild scope does not see its grandparent's nested names.
    let src2 = "message A { message B { message C { C x = 1; D y = 2; } } message D {} }";
    let model2 = parse_proto_source(src2).unwrap();
    let c = get_message(&model2, "A.B.C");
    assert!(matches!(c.fields[0].ty, FieldType::Custom(ref s) if s == "C"));
    assert!(matches!(c.fields[1].ty, FieldType::Custom(ref s) if s == "D"));
}

#[test]
fn absolute_reference_only_loses_its_dot() {
    let src = "message Order { .Address a = 1; pkg.Address b = 2; message Address {} }";
    let model = parse_proto_source(src).unwrap();
    let order = get_message(&model, "Order");
    assert!(matches!(order.fields[0].ty, FieldType::Custom(ref s) if s == "Address"));
    assert!(matches!(order.fields[1].ty, FieldType::Custom(ref s) if s == "pkg.Address"));
}

#[test]
fn nested_declarations_come_before_their_message() {
    let src = "message Outer { enum E { X = 0; } message Inner {} int32 n = 1; } enum Top { T = 0; }";
    let model = parse_proto_source(src).unwrap();
    let names: Vec<String> = model
        .types
        .iter()
        .map(|t| match t {
            TypeDecl::Message(m) => m.name.clone(),
            TypeDecl::Enum(e) => e.name.clone(),
        })
        .collect();
    assert_eq!(names, vec!["Outer.E", "Outer.Inner", "Outer", "Top"]);
}

#[test]
fn oneof_fields_are_appended_in_source_order() {
    let src = "message M { int32 a = 1; string b = 2; oneof choice { bool c = 3; bytes d = 4; } }";
    let model = parse_proto_source(src).unwrap();
    assert_eq!(model.types.len(), 1);
    let m = get_message(&model, "M");
    let names: Vec<&str> = m.fields.iter().map(|f| f.name.as_str()).collect();
    assert_eq!(names, vec!["a", "b", "c", "d"]);
    assert!(matches!(m.fields[2].ty, FieldType::Scalar(ScalarType::Bool)));
    assert!(matches!(m.fields[3].ty, FieldType::Scalar(ScalarType::Bytes)));
    assert_eq!(m.fields[3].order, 4);
}

#[test]
fn options_and_reserved_statements_are_accepted_and_ignored() {
    let src = r#"
        syntax = "proto3";
        import "other.proto";
        option java_package = "x.y";
        message M {
            option deprecated = true;
            reserved 7, 8;
            int32 a = 1 [deprecated = true, json_name = "aa"];
        }
        enum E { option allow_alias = true; A = 0; B = 0 [deprecated = true]; }
    "#;
    let model = parse_proto_source(src).unwrap();
    assert_eq!(model.types.len(), 2);
    let m = get_message(&model, "M");
    assert_eq!(m.fields.len(), 1);
    let e = get_enum(&model, "E");
    assert_eq!(e.values.len(), 2);
}

#[test]
fn literal_tags_and_enum_numbers_in_source() {
    let src = "message M { int32 a = 0x10; int32 b = -5; int32 c = 010; } enum E { N = -1; O = 010; H = 0X1f; }";
    let model = parse_proto_source(src).unwrap();
    let m = get_message(&model, "M");
    assert_eq!(m.fields[0].order, 16);
    assert_eq!(m.fields[1].order, 0);
    assert_eq!(m.fields[2].order, 8);
    let e = get_enum(&model, "E");
    assert_eq!(e.values[0].number, -1);
    assert_eq!(e.values[1].number, 8);
    assert_eq!(e.values[2].number, 31);
}
