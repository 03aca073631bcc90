use std::collections::HashMap;

use proto_to_pojo::{
    generate_java_from_model, generate_java_from_proto, Enum, EnumValue, Field, FieldType,
    GenerateError, Message, ParseError, ProtoModel, ScalarType, TypeDecl,
};

const ORDER_PROTO: &str = r#"
syntax = "proto3";
package me.alekseinovikov.proto;

message Order {
  int32 id = 1;
  string name = 2;
  repeated OrderItem items = 3;
  oneof details {
    Address shipping_address = 4;
    Status status = 5;
  }
  message Address {
    string street = 1;
    string city = 2;
  }
  enum Status {
    NEW = 0;
    PAID = 1;
    SHIPPED = 2;
  }
}

message OrderItem {
  string name = 1;
  optional int64 count = 2;
  OrderItemType type = 3;
}

enum OrderItemType {
  REGULAR = 0;
  DISCOUNT = 1;
}
"#;

const COMPLEX_PROTO: &str = r#"
syntax = "proto3";

package com.example.shop;

// A postal address.
message Address {
  string street = 1;
  string city = 2;
  string state = 3;
  string zip = 4;
}

message Customer {
  string id = 1;
  string name = 2;
  Address billing_address = 3;
  Address shipping_address = 4;
}

enum OrderStatus {
  UNKNOWN = 0;
  PENDING = 1;
  SHIPPED = 2;
  DELIVERED = 3;
  CANCELED = 4;
}

message LineItem {
  string sku = 1;
  int32 quantity = 2;
  double price = 3;
}

message Order {
  string id = 1;
  Customer customer = 2;
  OrderStatus status = 3;
  LineItem item = 4;
  int64 created_at = 5;
}
"#;

#[test]
fn generate_from_order_proto_smoke() {
    let files = generate_java_from_proto(ORDER_PROTO).expect("generation should succeed");
    assert!(!files.is_empty());
    let any_has_package = files.iter().any(|(_, src)| src.contains("package "));
    assert!(any_has_package);
}

#[test]
fn e2e_generate_complex_proto() {
    let files = generate_java_from_proto(COMPLEX_PROTO).expect("generation should succeed");

    let map: HashMap<String, String> = files.into_iter().collect();

    let expected_paths = vec![
        "com/example/shop/Address.java",
        "com/example/shop/Customer.java",
        "com/example/shop/LineItem.java",
        "com/example/shop/Order.java",
        "com/example/shop/OrderStatus.java",
    ];

    for p in &expected_paths {
        assert!(map.contains_key(*p), "missing generated file: {}", p);
    }
    assert_eq!(map.len(), expected_paths.len(), "unexpected extra files generated");

    for p in &expected_paths {
        let src = map.get(*p).unwrap();
        assert!(src.contains("package com.example.shop;"), "{} missing package", p);
    }

    let addr = map.get("com/example/shop/Address.java").unwrap();
    assert!(addr.contains("public class Address"));
    assert!(addr.contains("private String street;"));
    assert!(addr.contains("private String city;"));
    assert!(addr.contains("private String state;"));
    assert!(addr.contains("private String zip;"));
    assert!(addr.contains("public String getStreet()"));
    assert!(addr.contains("public void setStreet(String value)"));

    let status = map.get("com/example/shop/OrderStatus.java").unwrap();
    assert!(status.contains("public enum OrderStatus"));
    for v in ["UNKNOWN(0)", "PENDING(1)", "SHIPPED(2)", "DELIVERED(3)", "CANCELED(4)"].iter() {
        assert!(status.contains(v), "OrderStatus missing variant {v}");
    }
    assert!(status.contains("private final int number;"));
    assert!(status.contains("public int getNumber()"));

    let order = map.get("com/example/shop/Order.java").unwrap();
    assert!(order.contains("public class Order"));
    assert!(order.contains("private String id;"));
    assert!(order.contains("private Customer customer;"));
    assert!(order.contains("private OrderStatus status;"));
    assert!(order.contains("private LineItem item;"));
    assert!(order.contains("private long created_at;"));

    assert!(order.contains("public String getId()"));
    assert!(order.contains("public void setId(String value)"));
    assert!(order.contains("public Customer getCustomer()"));
    assert!(order.contains("public void setCustomer(Customer value)"));
    assert!(order.contains("public long getCreated_at()"));
    assert!(order.contains("public void setCreated_at(long value)"));

    let customer = map.get("com/example/shop/Customer.java").unwrap();
    assert!(customer.contains("public class Customer"));
    assert!(customer.contains("private Address billing_address;"));
    assert!(customer.contains("private Address shipping_address;"));

    let item = map.get("com/example/shop/LineItem.java").unwrap();
    assert!(item.contains("private int quantity;"));
    assert!(item.contains("private double price;"));
}

fn field(name: &str, ty: FieldType, order: u32) -> Field {
    Field { ty, name: name.to_string(), order }
}

#[test]
fn color_enum_renders_exactly() {
    let model = ProtoModel {
        package: Some("p".to_string()),
        types: vec![TypeDecl::Enum(Enum {
            name: "Color".to_string(),
            values: vec![
                EnumValue { name: "RED".to_string(), number: 0 },
                EnumValue { name: "GREEN".to_string(), number: 1 },
            ],
        })],
    };
    let files = generate_java_from_model(&model);
    assert_eq!(files.len(), 1);
    assert_eq!(files[0].0, "p/Color.java");
    assert_eq!(
        files[0].1,
        "package p;\n\npublic enum Color {\n    RED(0),\n    GREEN(1);\n\n    private final int number;\n    Color(int number) { this.number = number; }\n    public int getNumber() { return number; }\n}\n"
    );
    assert_eq!(files[0].1.matches("getNumber").count(), 1);
}

#[test]
fn message_renders_exactly() {
    let model = ProtoModel {
        package: None,
        types: vec![TypeDecl::Message(Message {
            name: "Order.Address".to_string(),
            fields: vec![
                field("shipping_address", FieldType::Custom("Order.Address".to_string()), 1),
                field("n", FieldType::Scalar(ScalarType::Sfixed64), 2),
            ],
        })],
    };
    let files = generate_java_from_model(&model);
    assert_eq!(files.len(), 1);
    assert_eq!(files[0].0, "Address.java");
    assert_eq!(
        files[0].1,
        "public class Address {\n    private Address shipping_address;\n    private long n;\n\n    public Address() {}\n\n    public Address getShipping_address() { return this.shipping_address; }\n    public void setShipping_address(Address value) { this.shipping_address = value; }\n\n    public long getN() { return this.n; }\n    public void setN(long value) { this.n = value; }\n\n}\n"
    );
}

#[test]
fn path_layout_follows_package() {
    let model = ProtoModel {
        package: Some("a.b".to_string()),
        types: vec![TypeDecl::Message(Message { name: "M".to_string(), fields: vec![] })],
    };
    let files = generate_java_from_model(&model);
    assert_eq!(files[0].0, "a/b/M.java");
    assert!(files[0].1.starts_with("package a.b;\n\n"));
}

#[test]
fn empty_package_writes_no_directory_and_no_package_line() {
    let model = ProtoModel {
        package: Some(String::new()),
        types: vec![TypeDecl::Message(Message { name: "M".to_string(), fields: vec![] })],
    };
    let files = generate_java_from_model(&model);
    assert_eq!(files[0].0, "M.java");
    assert!(files[0].1.starts_with("public class M {"));
}

#[test]
fn rendering_twice_gives_identical_output() {
    let first = generate_java_from_proto(COMPLEX_PROTO).unwrap();
    let second = generate_java_from_proto(COMPLEX_PROTO).unwrap();
    assert_eq!(first, second);
}

#[test]
fn nested_message_gets_its_own_file_in_the_package_directory() {
    let src = "package shop; message Order { Address address = 1; message Address { string street = 1; } }";
    let files = generate_java_from_proto(src).unwrap();
    let paths: Vec<&str> = files.iter().map(|(p, _)| p.as_str()).collect();
    assert_eq!(paths, vec!["shop/Address.java", "shop/Order.java"]);
    assert!(files[1].1.contains("private Address address;"));
    assert!(files[0].1.contains("public class Address {"));
}

#[test]
fn oneof_group_has_no_file_of_its_own() {
    let src = "message M { int32 a = 1; oneof pick { string x = 2; string y = 3; } }";
    let files = generate_java_from_proto(src).unwrap();
    assert_eq!(files.len(), 1);
    assert!(files[0].1.contains("private String x;\n    private String y;\n"));
    assert!(!files[0].1.contains("pick"));
}

#[test]
fn malformed_input_gives_no_files() {
    let result = generate_java_from_proto("message M { int32 a = 1 }");
    assert!(matches!(result, Err(GenerateError::Parse(ParseError::Grammar { .. }))));
}

#[test]
fn scalar_table_is_fixed() {
    let kinds = [
        (ScalarType::Double, "double"),
        (ScalarType::Float, "float"),
        (ScalarType::Int32, "int"),
        (ScalarType::Sint32, "int"),
        (ScalarType::Sfixed32, "int"),
        (ScalarType::Uint32, "int"),
        (ScalarType::Fixed32, "int"),
        (ScalarType::Int64, "long"),
        (ScalarType::Sint64, "long"),
        (ScalarType::Sfixed64, "long"),
        (ScalarType::Uint64, "long"),
        (ScalarType::Fixed64, "long"),
        (ScalarType::Bool, "boolean"),
        (ScalarType::String, "String"),
        (ScalarType::Bytes, "byte[]"),
    ];
    for (k, java) in kinds.iter() {
        let model = ProtoModel {
            package: None,
            types: vec![TypeDecl::Message(Message {
                name: "M".to_string(),
                fields: vec![field("f", FieldType::Scalar(*k), 1)],
            })],
        };
        let files = generate_java_from_model(&model);
        assert!(files[0].1.contains(&format!("    private {} f;\n", java)));
    }
}

#[test]
fn negative_enum_number_renders_with_sign() {
    let model = ProtoModel {
        package: None,
        types: vec![TypeDecl::Enum(Enum {
            name: "E".to_string(),
            values: vec![EnumValue { name: "LOW".to_string(), number: i32::MIN }],
        })],
    };
    let files = generate_java_from_model(&model);
    assert!(files[0].1.contains("    LOW(-2147483648);\n"));
}

#[test]
fn error_descriptions_name_their_kind() {
    let e = generate_java_from_proto("message {").unwrap_err();
    assert!(e.describe().starts_with("parse error: Parse error: "));
}
