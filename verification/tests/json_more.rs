use devtools_core::casing::{push_all, to_camel_case, to_pascal_case, to_snake_case};
use devtools_core::classgen::{
    generate_class, generate_csharp_class, generate_go_struct, generate_java_class,
    generate_javascript_class, generate_kotlin_class, generate_python_class, generate_rust_struct,
    generate_swift_struct, generate_typescript_class, infer_csharp_type, infer_go_type,
    infer_java_type, infer_kotlin_type, infer_python_type, infer_rust_type, infer_swift_type,
    infer_typescript_type, json_to_class, language_of, Language,
};
use devtools_core::formatter::{
    format_json, is_quoted, json_to_string, minify_json, string_to_json,
};
use devtools_core::json::Json;
use devtools_core::proto::{
    generate_proto_message, indent_of, infer_proto_type, json_to_proto, schema_of,
};
use devtools_core::text::{failure, is_blank, push_decimal, same_text};
use devtools_core::typing::{infer_type, word_of, TypeSystem, Word};

fn text(s: &str) -> Json {
    Json::Text(s.to_string())
}

fn object(members: Vec<(&str, Json)>) -> Json {
    Json::Object(members.into_iter().map(|(k, v)| (k.to_string(), v)).collect())
}

/// Parses through the library: the schema of `{"v": <json>}` tells the kind of number.
fn proto_type_of(json: &str) -> String {
    let schema = json_to_proto(&format!("{{\"v\": {json}}}")).unwrap();
    let line = schema.lines().nth(3).unwrap();
    line.trim().trim_end_matches(" v = 1;").to_string()
}

#[test]
fn snake_case_examples() {
    assert_eq!(to_snake_case("isActive"), "is_active");
    assert_eq!(to_snake_case("name"), "name");
    assert_eq!(to_snake_case(""), "");
    assert_eq!(to_snake_case("UserName"), "user_name");
    assert_eq!(to_snake_case("userID"), "user_id");
    assert_eq!(to_snake_case("HTTPServer"), "httpserver");
    assert_eq!(to_snake_case("already_snake"), "already_snake");
    assert_eq!(to_snake_case("a1B2"), "a1_b2");
    assert_eq!(to_snake_case("ÉcoleÉ"), "école_é");
}

#[test]
fn pascal_case_examples() {
    assert_eq!(to_pascal_case("user"), "User");
    assert_eq!(to_pascal_case("user_name"), "UserName");
    assert_eq!(to_pascal_case("user name  here"), "UserNameHere");
    assert_eq!(to_pascal_case("__x__"), "X");
    assert_eq!(to_pascal_case(""), "");
    assert_eq!(to_pascal_case(" \t_"), "");
    assert_eq!(to_pascal_case("isActive"), "IsActive");
    assert_eq!(to_pascal_case("ßeta"), "SSeta");
    assert_eq!(to_pascal_case("a\u{3000}b"), "AB");
}

#[test]
fn camel_case_examples() {
    assert_eq!(to_camel_case("user_name"), "userName");
    assert_eq!(to_camel_case("UserName"), "userName");
    assert_eq!(to_camel_case("name"), "name");
    assert_eq!(to_camel_case(""), "");
    assert_eq!(to_camel_case("_"), "");
    assert_eq!(to_camel_case("İx"), "i\u{307}x");
}

#[test]
fn push_all_appends() {
    let mut s = "ab".to_string();
    push_all(&mut s, &vec!['c', 'd']);
    assert_eq!(s, "abcd");
}

#[test]
fn blank_texts() {
    assert!(is_blank(""));
    assert!(is_blank(" \n\t\r"));
    assert!(is_blank("\u{2003}"));
    assert!(!is_blank(" x "));
    assert!(!is_blank("_"));
}

#[test]
fn same_text_compares() {
    assert!(same_text("", ""));
    assert!(same_text("go", "go"));
    assert!(!same_text("go", "g"));
    assert!(!same_text("g", "go"));
    assert!(!same_text("go", "gO"));
}

#[test]
fn decimal_numerals() {
    for (n, expected) in [(0u64, "0"), (7, "7"), (10, "10"), (123, "123"), (u64::MAX, "18446744073709551615")] {
        let mut s = "n=".to_string();
        push_decimal(&mut s, n);
        assert_eq!(s, format!("n={expected}"));
    }
}

#[test]
fn failure_joins_stage_and_detail() {
    assert_eq!(failure("Invalid JSON: ", "eof"), "Invalid JSON: eof");
}

#[test]
fn minify_exact() {
    assert_eq!(minify_json(" { \"b\" : [ 1 , 2.5 , null ] , \"a\" : \"x y\" } ").unwrap(), r#"{"a":"x y","b":[1,2.5,null]}"#);
    assert_eq!(minify_json("18446744073709551615").unwrap(), "18446744073709551615");
    assert_eq!(minify_json("-0.50").unwrap(), "-0.5");
    assert_eq!(minify_json("\"a\\u0041\"").unwrap(), "\"aA\"");
}

#[test]
fn format_exact() {
    assert_eq!(format_json(r#"{"a":[1,{"b":true}]}"#).unwrap(), "{\n  \"a\": [\n    1,\n    {\n      \"b\": true\n    }\n  ]\n}");
    assert_eq!(format_json("[]").unwrap(), "[]");
}

#[test]
fn empty_and_invalid_messages() {
    assert_eq!(minify_json("  \n").unwrap_err(), "Input is empty");
    assert_eq!(format_json("").unwrap_err(), "Input is empty");
    assert_eq!(json_to_string("\t").unwrap_err(), "Input is empty");
    assert_eq!(string_to_json(" ").unwrap_err(), "Input is empty");
    assert_eq!(json_to_proto("").unwrap_err(), "Input is empty");
    assert_eq!(json_to_class("", "go", "X").unwrap_err(), "Input is empty");
    assert!(minify_json("{").unwrap_err().starts_with("Invalid JSON: "));
    assert!(format_json("{").unwrap_err().starts_with("Invalid JSON: "));
    assert!(json_to_string("{").unwrap_err().starts_with("Invalid JSON: "));
    assert!(json_to_proto("{").unwrap_err().starts_with("Invalid JSON: "));
    assert!(json_to_class("{", "go", "X").unwrap_err().starts_with("Invalid JSON: "));
    assert!(minify_json("{").unwrap_err().len() > "Invalid JSON: ".len());
}

fn parse_error(text: &str) -> String {
    serde_json::from_str::<serde_json::Value>(text).unwrap_err().to_string()
}

#[test]
fn failures_carry_the_parser_diagnostic() {
    assert_eq!(
        minify_json("{").unwrap_err(),
        "Invalid JSON: EOF while parsing an object at line 1 column 1"
    );
    for input in ["{", "not valid json", "[1,]", "{\"a\" 1}", "\"open"] {
        let wanted = format!("Invalid JSON: {}", parse_error(input));
        assert_eq!(minify_json(input).unwrap_err(), wanted);
        assert_eq!(format_json(input).unwrap_err(), wanted);
        assert_eq!(json_to_string(input).unwrap_err(), wanted);
        assert_eq!(json_to_proto(input).unwrap_err(), wanted);
        assert_eq!(json_to_class(input, "go", "X").unwrap_err(), wanted);
    }
    assert_eq!(
        string_to_json("\"not json\"").unwrap_err(),
        format!("Unescaped content is not valid JSON: {}", parse_error("not json"))
    );
    assert_eq!(
        string_to_json("\"a\" \"b\"").unwrap_err(),
        format!(
            "Invalid JSON string literal: {}",
            serde_json::from_str::<String>("\"a\" \"b\"").unwrap_err()
        )
    );
}

#[test]
fn json_to_string_escapes() {
    assert_eq!(json_to_string("{\"a\":\"b\\n\"}").unwrap(), r#""{\"a\":\"b\\n\"}""#);
    assert_eq!(json_to_string(" 1 ").unwrap(), "\" 1 \"");
    assert_eq!(json_to_string("[\n]").unwrap(), "\"[\\n]\"");
}

#[test]
fn string_to_json_cases() {
    assert_eq!(string_to_json(r#""{\"a\":1}""#).unwrap(), "{\n  \"a\": 1\n}");
    assert_eq!(
        string_to_json("{\"a\":1}").unwrap_err(),
        "Input must be a JSON string literal (enclosed in double quotes with escaped content)"
    );
    assert_eq!(
        string_to_json("\"abc").unwrap_err(),
        "Input must be a JSON string literal (enclosed in double quotes with escaped content)"
    );
    assert!(string_to_json("\"").unwrap_err().starts_with("Invalid JSON string literal: "));
    assert!(string_to_json("\"a\" \"b\"").unwrap_err().starts_with("Invalid JSON string literal: "));
    assert!(string_to_json("\"not json\"")
        .unwrap_err()
        .starts_with("Unescaped content is not valid JSON: "));
    assert_eq!(string_to_json("\"[1]\"").unwrap(), "[\n  1\n]");
}

#[test]
fn quoted_texts() {
    assert!(is_quoted("\"\""));
    assert!(is_quoted("\""));
    assert!(is_quoted("\"a\""));
    assert!(!is_quoted(""));
    assert!(!is_quoted("a\""));
    assert!(!is_quoted("\"a"));
    assert!(!is_quoted(" \"a\""));
}

#[test]
fn proto_exact() {
    let schema = json_to_proto(r#"{"name":"John","age":30,"isActive":true,"score":1.5,"nothing":null}"#).unwrap();
    assert_eq!(
        schema,
        "syntax = \"proto3\";\n\nmessage Root {\n  int32 age = 1;\n  bool is_active = 2;\n  string name = 3;\n  string nothing = 4;\n  double score = 5;\n}\n"
    );
}

#[test]
fn proto_nested_exact() {
    let schema = json_to_proto(r#"{"user":{"id":1,"home":{"zip":"x"}},"items":[{"n":1}],"count":5}"#).unwrap();
    assert_eq!(
        schema,
        "syntax = \"proto3\";\n\nmessage Root {\n  int32 count = 1;\n  repeated Items items = 2;\n  User user = 3;\n}\n\nmessage Items {\n  int32 n = 1;\n}\n\nmessage User {\n  Home home = 1;\n  int32 id = 2;\n}\n\nmessage Home {\n  string zip = 1;\n}\n"
    );
}

#[test]
fn proto_number_kinds() {
    assert_eq!(proto_type_of("2147483647"), "int32");
    assert_eq!(proto_type_of("-2147483648"), "int32");
    assert_eq!(proto_type_of("2147483648"), "int64");
    assert_eq!(proto_type_of("-2147483649"), "int64");
    assert_eq!(proto_type_of("9223372036854775807"), "int64");
    assert_eq!(proto_type_of("9223372036854775808"), "uint64");
    assert_eq!(proto_type_of("1.0"), "double");
    assert_eq!(proto_type_of("1e3"), "double");
}

#[test]
fn proto_arrays() {
    assert_eq!(proto_type_of("[]"), "repeated string");
    assert_eq!(proto_type_of("[1, \"x\"]"), "repeated int32");
    assert_eq!(proto_type_of("[[true]]"), "repeated bool");
    assert_eq!(proto_type_of("[[[1.5]]]"), "repeated double");
    assert_eq!(proto_type_of("[[]]"), "repeated string");
    assert_eq!(proto_type_of("[null]"), "repeated string");
    // an array of arrays of objects names the message and never declares it
    assert_eq!(
        json_to_proto(r#"{"v":[[{"a":1}]]}"#).unwrap(),
        "syntax = \"proto3\";\n\nmessage Root {\n  repeated V v = 1;\n}\n"
    );
}

#[test]
fn proto_top_level_kinds() {
    assert_eq!(
        json_to_proto(r#"[{"a":"x"}, 5]"#).unwrap(),
        "syntax = \"proto3\";\n\nmessage Root {\n  string a = 1;\n}\n"
    );
    assert_eq!(json_to_proto("[]").unwrap_err(), "Cannot generate proto schema from empty array");
    assert_eq!(
        json_to_proto("[1]").unwrap_err(),
        "Array must contain objects to generate proto schema"
    );
    assert_eq!(
        json_to_proto("5").unwrap_err(),
        "Input must be a JSON object or array of objects"
    );
    assert_eq!(json_to_proto("{}").unwrap(), "syntax = \"proto3\";\n\nmessage Root {\n}\n");
}

#[test]
fn proto_on_values() {
    let value = object(vec![("firstName", text("a")), ("flag", Json::Bool(true)), ("none", Json::Null)]);
    assert_eq!(
        schema_of(&value).unwrap(),
        "syntax = \"proto3\";\n\nmessage Root {\n  string first_name = 1;\n  bool flag = 2;\n  string none = 3;\n}\n"
    );
    let mut out = "x".to_string();
    let mut counter = 0;
    generate_proto_message(&Json::Bool(true), "M", &mut out, &mut counter, 0);
    assert_eq!((out.as_str(), counter), ("x", 0));
    let nested = object(vec![("a", object(vec![("b", object(vec![]))])), ("c", Json::Array(vec![object(vec![])]))]);
    let mut out = String::new();
    let mut counter = 0;
    generate_proto_message(&nested, "M", &mut out, &mut counter, 1);
    assert_eq!(
        out,
        "  message M {\n    A a = 1;\n    repeated C c = 2;\n  }\n\n  message A {\n    B b = 1;\n  }\n\n  message B {\n  }\n\n  message C {\n  }\n"
    );
    assert_eq!(counter, 3);
    let mut full = i32::MAX - 1;
    generate_proto_message(&nested, "M", &mut String::new(), &mut full, 0);
    assert_eq!(full, i32::MAX);
}

#[test]
fn infer_proto_on_values() {
    let mut counter = 5;
    let (ty, nested) = infer_proto_type(&object(vec![]), "home_address", &mut counter);
    assert_eq!((ty.as_str(), nested.as_deref(), counter), ("HomeAddress", Some("HomeAddress"), 6));
    let (ty, nested) = infer_proto_type(&Json::Array(vec![object(vec![])]), "tags", &mut counter);
    assert_eq!((ty.as_str(), nested.as_deref(), counter), ("repeated Tags", Some("Tags"), 7));
    let deep = Json::Array(vec![Json::Array(vec![object(vec![])])]);
    let (ty, nested) = infer_proto_type(&deep, "tags", &mut counter);
    assert_eq!((ty.as_str(), nested, counter), ("repeated Tags", None, 8));
    let (ty, nested) = infer_proto_type(&text("x"), "t", &mut counter);
    assert_eq!((ty.as_str(), nested, counter), ("string", None, 8));
}

#[test]
fn indent_of_repeats() {
    assert_eq!(indent_of(0), "");
    assert_eq!(indent_of(3), "      ");
}

const SAMPLE: &str = r#"{"userName":"a","age":3,"ratio":0.5,"ok":true,"none":null,"tags":["x"],"empty":[],"home":{"zip":"z"},"pets":[{"name":"p"}]}"#;

#[test]
fn typescript_exact() {
    assert_eq!(
        json_to_class(SAMPLE, "TypeScript", "User").unwrap(),
        "interface User {\n  age: number;\n  empty: any[];\n  home: Home;\n  none: any;\n  ok: boolean;\n  pets: Pets[];\n  ratio: number;\n  tags: string[];\n  userName: string;\n}\n\ninterface Home {\n  zip: string;\n}\n\ninterface Pets {\n  name: string;\n}\n"
    );
}

#[test]
fn javascript_exact() {
    assert_eq!(
        json_to_class(r#"{"b":{"c":1},"a":1}"#, "javascript", "").unwrap(),
        "class Root {\n  constructor(data) {\n    this.a = data.a;\n    this.b = data.b;\n  }\n}\n"
    );
}

#[test]
fn python_exact() {
    assert_eq!(
        json_to_class(SAMPLE, "python", "User").unwrap(),
        "from dataclasses import dataclass\nfrom typing import List, Optional, Any\n\n@dataclass\nclass User:\n    age: int\n    empty: List[Any]\n    home: Home\n    none: Optional[Any]\n    ok: bool\n    pets: List[Pets]\n    ratio: float\n    tags: List[str]\n    user_name: str\n\nfrom dataclasses import dataclass\nfrom typing import List, Optional, Any\n\n@dataclass\nclass Home:\n    zip: str\n\nfrom dataclasses import dataclass\nfrom typing import List, Optional, Any\n\n@dataclass\nclass Pets:\n    name: str\n"
    );
}

#[test]
fn rust_exact() {
    assert_eq!(
        json_to_class(r#"{"userName":"a","n":[[1]],"e":[],"z":null,"h":{"f":1.5}}"#, "RUST", "User").unwrap(),
        "use serde::{Deserialize, Serialize};\n\n#[derive(Debug, Serialize, Deserialize)]\npub struct User {\n    pub e: Vec<serde_json::Value>,\n    pub h: H,\n    pub n: Vec<Vec<i64>>,\n    pub user_name: String,\n    pub z: Option<String>,\n}\n\nuse serde::{Deserialize, Serialize};\n\n#[derive(Debug, Serialize, Deserialize)]\npub struct H {\n    pub f: f64,\n}\n"
    );
}

#[test]
fn java_exact() {
    assert_eq!(
        json_to_class(r#"{"user_name":"a","tags":[1]}"#, "java", "User").unwrap(),
        "import com.fasterxml.jackson.annotation.JsonProperty;\nimport java.util.List;\n\npublic class User {\n    @JsonProperty(\"tags\")\n    private List<Integer> tags;\n\n    @JsonProperty(\"user_name\")\n    private String userName;\n\n    public List<Integer> getTags() {\n        return tags;\n    }\n\n    public void setTags(List<Integer> tags) {\n        this.tags = tags;\n    }\n\n    public String getUserName() {\n        return userName;\n    }\n\n    public void setUserName(String userName) {\n        this.userName = userName;\n    }\n\n}\n"
    );
}

#[test]
fn csharp_exact() {
    for language in ["csharp", "C#", "CSharp"] {
        assert_eq!(
            json_to_class(r#"{"user_name":true,"x":null,"e":[],"d":0.5}"#, language, "U").unwrap(),
            "using System.Collections.Generic;\nusing Newtonsoft.Json;\n\npublic class U\n{\n    [JsonProperty(\"d\")]\n    public double D { get; set; }\n\n    [JsonProperty(\"e\")]\n    public List<object> E { get; set; }\n\n    [JsonProperty(\"user_name\")]\n    public bool UserName { get; set; }\n\n    [JsonProperty(\"x\")]\n    public object X { get; set; }\n\n}\n"
        );
    }
}

#[test]
fn go_exact() {
    assert_eq!(
        json_to_class(r#"{"user_name":"a","ids":[1],"e":[],"x":null,"f":1.5,"o":{}}"#, "go", "U").unwrap(),
        "package main\n\ntype U struct {\n    E []interface{} `json:\"e\"`\n    F float64 `json:\"f\"`\n    Ids []int `json:\"ids\"`\n    O O `json:\"o\"`\n    UserName string `json:\"user_name\"`\n    X interface{} `json:\"x\"`\n}\n\npackage main\n\ntype O struct {\n}\n"
    );
}

#[test]
fn kotlin_exact() {
    assert_eq!(
        json_to_class(r#"{"user_name":"a","n":1,"x":null}"#, "kotlin", "U").unwrap(),
        "import com.google.gson.annotations.SerializedName\n\ndata class U(\n    @SerializedName(\"n\")\n    val n: Int,\n    @SerializedName(\"user_name\")\n    val userName: String,\n    @SerializedName(\"x\")\n    val x: Any?\n)\n"
    );
    assert_eq!(
        json_to_class("{}", "kotlin", "U").unwrap(),
        "import com.google.gson.annotations.SerializedName\n\ndata class U(\n)\n"
    );
}

#[test]
fn swift_exact() {
    assert_eq!(
        json_to_class(r#"{"user_name":"a","l":[[true]],"e":[],"d":2.0}"#, "swift", "U").unwrap(),
        "import Foundation\n\nstruct U: Codable {\n    let d: Double\n    let e: [Any]\n    let l: [[Bool]]\n    let userName: String\n}\n"
    );
}

#[test]
fn nested_declarations_follow_depth_first() {
    assert_eq!(
        json_to_class(r#"{"a":{"b":{"c":1}},"d":[[{"e":1}]]}"#, "typescript", "").unwrap(),
        "interface Root {\n  a: A;\n  d: D[][];\n}\n\ninterface A {\n  b: B;\n}\n\ninterface B {\n  c: number;\n}\n\ninterface D {\n  e: number;\n}\n"
    );
}

#[test]
fn class_errors() {
    assert_eq!(json_to_class("{}", "cobol", "X").unwrap_err(), "Unsupported language: cobol");
    assert_eq!(json_to_class("{}", "", "X").unwrap_err(), "Unsupported language: ");
    assert_eq!(json_to_class("[1]", "go", "X").unwrap_err(), "Input must be a JSON object");
    assert_eq!(json_to_class("[{}]", "go", "X").unwrap_err(), "Input must be a JSON object");
    for lang in [
        Language::TypeScript,
        Language::JavaScript,
        Language::Python,
        Language::Rust,
        Language::Java,
        Language::CSharp,
        Language::Go,
        Language::Kotlin,
        Language::Swift,
    ] {
        assert_eq!(generate_class(lang, &Json::Null, "X").unwrap_err(), "Input must be a JSON object");
    }
}

#[test]
fn language_names() {
    assert_eq!(language_of("TypeScript"), Some(Language::TypeScript));
    assert_eq!(language_of("JAVASCRIPT"), Some(Language::JavaScript));
    assert_eq!(language_of("python"), Some(Language::Python));
    assert_eq!(language_of("rust"), Some(Language::Rust));
    assert_eq!(language_of("java"), Some(Language::Java));
    assert_eq!(language_of("csharp"), Some(Language::CSharp));
    assert_eq!(language_of("c#"), Some(Language::CSharp));
    assert_eq!(language_of("Go"), Some(Language::Go));
    assert_eq!(language_of("kotlin"), Some(Language::Kotlin));
    assert_eq!(language_of("swift"), Some(Language::Swift));
    assert_eq!(language_of("c++"), None);
    assert_eq!(language_of(" go"), None);
}

#[test]
fn named_generators_agree_with_the_general_one() {
    let value = object(vec![
        ("userName", text("a")),
        ("home", object(vec![("zip", text("z"))])),
        ("pets", Json::Array(vec![object(vec![])])),
    ]);
    assert_eq!(generate_typescript_class(&value, "U"), generate_class(Language::TypeScript, &value, "U"));
    assert_eq!(generate_javascript_class(&value, "U"), generate_class(Language::JavaScript, &value, "U"));
    assert_eq!(generate_python_class(&value, "U"), generate_class(Language::Python, &value, "U"));
    assert_eq!(generate_rust_struct(&value, "U"), generate_class(Language::Rust, &value, "U"));
    assert_eq!(generate_java_class(&value, "U"), generate_class(Language::Java, &value, "U"));
    assert_eq!(generate_csharp_class(&value, "U"), generate_class(Language::CSharp, &value, "U"));
    assert_eq!(generate_go_struct(&value, "U"), generate_class(Language::Go, &value, "U"));
    assert_eq!(generate_kotlin_class(&value, "U"), generate_class(Language::Kotlin, &value, "U"));
    assert_eq!(generate_swift_struct(&value, "U"), generate_class(Language::Swift, &value, "U"));
    assert_eq!(
        generate_swift_struct(&value, "U").unwrap(),
        "import Foundation\n\nstruct U: Codable {\n    let userName: String\n    let home: Home\n    let pets: [Pets]\n}\n\nimport Foundation\n\nstruct Home: Codable {\n    let zip: String\n}\n\nimport Foundation\n\nstruct Pets: Codable {\n}\n"
    );
}

#[test]
fn infer_collects_nested_objects() {
    let home = object(vec![("zip", text("z"))]);
    let pets = Json::Array(vec![Json::Array(vec![object(vec![])])]);
    let word = text("x");
    let flag = Json::Bool(true);
    let null = Json::Null;
    let empty = Json::Array(vec![]);
    let nulls = Json::Array(vec![Json::Null]);
    let words = Json::Array(vec![text("s")]);
    let flags = Json::Array(vec![Json::Bool(true)]);
    let mut nested = Vec::new();
    assert_eq!(infer_typescript_type(&home, "home_address", &mut nested), "HomeAddress");
    assert_eq!(infer_python_type(&pets, "pets", &mut nested), "List[List[Pets]]");
    assert_eq!(infer_rust_type(&word, "t", &mut nested), "String");
    assert_eq!(infer_java_type(&flag, "t", &mut nested), "Boolean");
    assert_eq!(infer_csharp_type(&null, "t", &mut nested), "object");
    assert_eq!(infer_go_type(&empty, "t", &mut nested), "[]interface{}");
    assert_eq!(infer_kotlin_type(&nulls, "t", &mut nested), "List<Any?>");
    assert_eq!(infer_swift_type(&words, "t", &mut nested), "[String]");
    assert_eq!(infer_type(TypeSystem::Go, &flags, "t", &mut nested), "[]bool");
    assert_eq!(nested.len(), 2);
    assert_eq!(nested[0].0, "HomeAddress");
    assert!(matches!(nested[0].1, Json::Object(m) if m.len() == 1));
    assert_eq!(nested[1].0, "Pets");
    assert!(matches!(nested[1].1, Json::Object(m) if m.is_empty()));
}

#[test]
fn words_of_the_type_systems() {
    assert_eq!(word_of(TypeSystem::TypeScript, Word::Float), "number");
    assert_eq!(word_of(TypeSystem::Python, Word::Null), "Optional[Any]");
    assert_eq!(word_of(TypeSystem::Rust, Word::EmptyArray), "Vec<serde_json::Value>");
    assert_eq!(word_of(TypeSystem::Java, Word::Integer), "Integer");
    assert_eq!(word_of(TypeSystem::CSharp, Word::Text), "string");
    assert_eq!(word_of(TypeSystem::Go, Word::ArrayOpen), "[]");
    assert_eq!(word_of(TypeSystem::Go, Word::ArrayClose), "");
    assert_eq!(word_of(TypeSystem::Kotlin, Word::Boolean), "Boolean");
    assert_eq!(word_of(TypeSystem::Swift, Word::ArrayClose), "]");
}
