use devtools_core::classgen::json_to_class;
use devtools_core::formatter::{format_json, json_to_string, minify_json, string_to_json};
use devtools_core::proto::json_to_proto;

#[test]
fn test_minify_json() {
    let input = r#"{
  "name": "John",
  "age": 30
}"#
    .to_string();
    let result = minify_json(&input).unwrap();
    assert!(result.contains("\"name\":\"John\""));
    assert!(result.contains("\"age\":30"));
    assert!(!result.contains("\n"));
}

#[test]
fn test_format_json() {
    let input = r#"{"name":"John","age":30}"#.to_string();
    let result = format_json(&input).unwrap();
    assert!(result.contains("  \"name\""));
    assert!(result.contains("  \"age\""));
}

#[test]
fn test_json_to_string() {
    let input = r#"{"name":"John"}"#.to_string();
    let result = json_to_string(&input).unwrap();
    assert_eq!(result, r#""{\"name\":\"John\"}""#);
}

#[test]
fn test_string_to_json() {
    let input = r#""{\"name\":\"John\"}""#.to_string();
    let result = string_to_json(&input).unwrap();
    assert!(result.contains("\"name\""));
    assert!(result.contains("\"John\""));
}

#[test]
fn test_invalid_json() {
    let input = "not valid json".to_string();
    assert!(minify_json(&input.clone()).is_err());
    assert!(format_json(&input).is_err());
}

#[test]
fn test_empty_input() {
    assert!(minify_json(&"".to_string()).is_err());
    assert!(format_json(&"".to_string()).is_err());
}

#[test]
fn test_json_to_proto() {
    let input = r#"{
  "name": "John",
  "age": 30,
  "isActive": true,
  "email": "john@example.com"
}"#
    .to_string();
    let result = json_to_proto(&input).unwrap();
    assert!(result.contains("syntax = \"proto3\""));
    assert!(result.contains("message Root"));
    assert!(result.contains("string name"));
    assert!(result.contains("int32 age"));
    assert!(result.contains("bool is_active"));
    assert!(result.contains("string email"));
}

#[test]
fn test_json_to_proto_nested() {
    let input = r#"{
  "user": {
    "name": "John",
    "id": 123
  },
  "count": 5
}"#
    .to_string();
    let result = json_to_proto(&input).unwrap();
    assert!(result.contains("syntax = \"proto3\""));
    assert!(result.contains("message Root"));
    assert!(result.contains("User user"));
    assert!(result.contains("message User"));
    assert!(result.contains("string name"));
    assert!(result.contains("int32 id"));
}

#[test]
fn test_json_to_proto_array() {
    let input = r#"{
  "tags": ["rust", "tauri", "json"]
}"#
    .to_string();
    let result = json_to_proto(&input).unwrap();
    assert!(result.contains("repeated string tags"));
}

#[test]
fn test_json_to_typescript_class() {
    let input = r#"{
  "name": "John",
  "age": 30,
  "isActive": true
}"#
    .to_string();
    let result = json_to_class(&input, &"typescript".to_string(), &"User".to_string()).unwrap();
    assert!(result.contains("interface User"));
    assert!(result.contains("name: string;"));
    assert!(result.contains("age: number;"));
    assert!(result.contains("isActive: boolean;"));
}

#[test]
fn test_json_to_python_class() {
    let input = r#"{
  "name": "John",
  "age": 30
}"#
    .to_string();
    let result = json_to_class(&input, &"python".to_string(), &"User".to_string()).unwrap();
    assert!(result.contains("class User:"));
    assert!(result.contains("name: str"));
    assert!(result.contains("age: int"));
}

#[test]
fn test_json_to_rust_struct() {
    let input = r#"{
  "name": "John",
  "age": 30
}"#
    .to_string();
    let result = json_to_class(&input, &"rust".to_string(), &"User".to_string()).unwrap();
    assert!(result.contains("pub struct User"));
    assert!(result.contains("pub name: String"));
    assert!(result.contains("pub age: i64"));
}

#[test]
fn test_json_to_java_class() {
    let input = r#"{
  "name": "John"
}"#
    .to_string();
    let result = json_to_class(&input, &"java".to_string(), &"User".to_string()).unwrap();
    assert!(result.contains("public class User"));
    assert!(result.contains("private String name;"));
    assert!(result.contains("public String getName()"));
}

#[test]
fn test_json_to_class_nested() {
    let input = r#"{
  "user": {
    "name": "John",
    "id": 123
  }
}"#
    .to_string();
    let result = json_to_class(&input, &"typescript".to_string(), &"Root".to_string()).unwrap();
    assert!(result.contains("interface Root"));
    assert!(result.contains("interface User"));
    assert!(result.contains("name: string;"));
}

#[test]
fn main_test_minify_json() {
    let input = r#"{
  "name": "John",
  "age": 30
}"#;
    let result = minify_json(input).unwrap();
    assert!(result.contains("\"name\":\"John\""));
    assert!(result.contains("\"age\":30"));
    assert!(!result.contains("\n"));
    assert!(!result.contains("  "));
}

#[test]
fn main_test_format_json() {
    let input = r#"{"name":"John","age":30}"#;
    let result = format_json(input).unwrap();
    assert!(result.contains("  \"name\""));
    assert!(result.contains("  \"age\""));
}

#[test]
fn main_test_json_to_string() {
    let input = r#"{"name":"John"}"#;
    let result = json_to_string(input).unwrap();
    assert_eq!(result, r#""{\"name\":\"John\"}""#);
}

#[test]
fn main_test_string_to_json() {
    let input = r#""{\"name\":\"John\"}""#;
    let result = string_to_json(input).unwrap();
    assert!(result.contains("\"name\""));
    assert!(result.contains("\"John\""));
}

#[test]
fn main_test_invalid_json() {
    let input = "not valid json";
    assert!(minify_json(input).is_err());
    assert!(format_json(input).is_err());
}

#[test]
fn main_test_empty_input() {
    assert!(minify_json("").is_err());
    assert!(format_json("").is_err());
}
