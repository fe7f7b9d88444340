//! Type inference for code generation: the type that a target language gives
//! a JSON value, and the nested type that the value asks for.

use vstd::prelude::*;
use vstd::string::StringExecFns;
use crate::casing::{pascal_case, to_pascal_case};
use crate::json::Json;

verus! {

/// The target languages that have types for their members.
#[derive(Clone, Copy, Debug, PartialEq, Eq, Structural)]
pub enum TypeSystem {
    TypeScript,
    Python,
    Rust,
    Java,
    CSharp,
    Go,
    Kotlin,
    Swift,
}

/// The words that a type is put together from.
#[derive(Clone, Copy, Debug, PartialEq, Eq, Structural)]
pub enum Word {
    /// The type of `null`.
    Null,
    /// The type of `true` and `false`.
    Boolean,
    /// The type of a number held as floating point.
    Float,
    /// The type of any other number.
    Integer,
    /// The type of a string.
    Text,
    /// The type of an empty array.
    EmptyArray,
    /// What stands before the element type of an array.
    ArrayOpen,
    /// What stands after the element type of an array.
    ArrayClose,
}

/// The word `w` in the type system `ts`.
pub open spec fn word(ts: TypeSystem, w: Word) -> Seq<char> {
    match ts {
        TypeSystem::TypeScript => match w {
            Word::Null => "any"@,
            Word::Boolean => "boolean"@,
            Word::Float => "number"@,
            Word::Integer => "number"@,
            Word::Text => "string"@,
            Word::EmptyArray => "any[]"@,
            Word::ArrayOpen => ""@,
            Word::ArrayClose => "[]"@,
        },
        TypeSystem::Python => match w {
            Word::Null => "Optional[Any]"@,
            Word::Boolean => "bool"@,
            Word::Float => "float"@,
            Word::Integer => "int"@,
            Word::Text => "str"@,
            Word::EmptyArray => "List[Any]"@,
            Word::ArrayOpen => "List["@,
            Word::ArrayClose => "]"@,
        },
        TypeSystem::Rust => match w {
            Word::Null => "Option<String>"@,
            Word::Boolean => "bool"@,
            Word::Float => "f64"@,
            Word::Integer => "i64"@,
            Word::Text => "String"@,
            Word::EmptyArray => "Vec<serde_json::Value>"@,
            Word::ArrayOpen => "Vec<"@,
            Word::ArrayClose => ">"@,
        },
        TypeSystem::Java => match w {
            Word::Null => "Object"@,
            Word::Boolean => "Boolean"@,
            Word::Float => "Double"@,
            Word::Integer => "Integer"@,
            Word::Text => "String"@,
            Word::EmptyArray => "List<Object>"@,
            Word::ArrayOpen => "List<"@,
            Word::ArrayClose => ">"@,
        },
        TypeSystem::CSharp => match w {
            Word::Null => "object"@,
            Word::Boolean => "bool"@,
            Word::Float => "double"@,
            Word::Integer => "int"@,
            Word::Text => "string"@,
            Word::EmptyArray => "List<object>"@,
            Word::ArrayOpen => "List<"@,
            Word::ArrayClose => ">"@,
        },
        TypeSystem::Go => match w {
            Word::Null => "interface{}"@,
            Word::Boolean => "bool"@,
            Word::Float => "float64"@,
            Word::Integer => "int"@,
            Word::Text => "string"@,
            Word::EmptyArray => "[]interface{}"@,
            Word::ArrayOpen => "[]"@,
            Word::ArrayClose => ""@,
        },
        TypeSystem::Kotlin => match w {
            Word::Null => "Any?"@,
            Word::Boolean => "Boolean"@,
            Word::Float => "Double"@,
            Word::Integer => "Int"@,
            Word::Text => "String"@,
            Word::EmptyArray => "List<Any>"@,
            Word::ArrayOpen => "List<"@,
            Word::ArrayClose => ">"@,
        },
        TypeSystem::Swift => match w {
            Word::Null => "Any?"@,
            Word::Boolean => "Bool"@,
            Word::Float => "Double"@,
            Word::Integer => "Int"@,
            Word::Text => "String"@,
            Word::EmptyArray => "[Any]"@,
            Word::ArrayOpen => "["@,
            Word::ArrayClose => "]"@,
        },
    }
}

/// Looks up the word `w` in the type system `ts`.
pub fn word_of(ts: TypeSystem, w: Word) -> (text: &'static str)
    ensures
        text@ == word(ts, w),
{
    match ts {
        TypeSystem::TypeScript => match w {
            Word::Null => "any",
            Word::Boolean => "boolean",
            Word::Float => "number",
            Word::Integer => "number",
            Word::Text => "string",
            Word::EmptyArray => "any[]",
            Word::ArrayOpen => "",
            Word::ArrayClose => "[]",
        },
        TypeSystem::Python => match w {
            Word::Null => "Optional[Any]",
            Word::Boolean => "bool",
            Word::Float => "float",
            Word::Integer => "int",
            Word::Text => "str",
            Word::EmptyArray => "List[Any]",
            Word::ArrayOpen => "List[",
            Word::ArrayClose => "]",
        },
        TypeSystem::Rust => match w {
            Word::Null => "Option<String>",
            Word::Boolean => "bool",
            Word::Float => "f64",
            Word::Integer => "i64",
            Word::Text => "String",
            Word::EmptyArray => "Vec<serde_json::Value>",
            Word::ArrayOpen => "Vec<",
            Word::ArrayClose => ">",
        },
        TypeSystem::Java => match w {
            Word::Null => "Object",
            Word::Boolean => "Boolean",
            Word::Float => "Double",
            Word::Integer => "Integer",
            Word::Text => "String",
            Word::EmptyArray => "List<Object>",
            Word::ArrayOpen => "List<",
            Word::ArrayClose => ">",
        },
        TypeSystem::CSharp => match w {
            Word::Null => "object",
            Word::Boolean => "bool",
            Word::Float => "double",
            Word::Integer => "int",
            Word::Text => "string",
            Word::EmptyArray => "List<object>",
            Word::ArrayOpen => "List<",
            Word::ArrayClose => ">",
        },
        TypeSystem::Go => match w {
            Word::Null => "interface{}",
            Word::Boolean => "bool",
            Word::Float => "float64",
            Word::Integer => "int",
            Word::Text => "string",
            Word::EmptyArray => "[]interface{}",
            Word::ArrayOpen => "[]",
            Word::ArrayClose => "",
        },
        TypeSystem::Kotlin => match w {
            Word::Null => "Any?",
            Word::Boolean => "Boolean",
            Word::Float => "Double",
            Word::Integer => "Int",
            Word::Text => "String",
            Word::EmptyArray => "List<Any>",
            Word::ArrayOpen => "List<",
            Word::ArrayClose => ">",
        },
        TypeSystem::Swift => match w {
            Word::Null => "Any?",
            Word::Boolean => "Bool",
            Word::Float => "Double",
            Word::Integer => "Int",
            Word::Text => "String",
            Word::EmptyArray => "[Any]",
            Word::ArrayOpen => "[",
            Word::ArrayClose => "]",
        },
    }
}

/// The type of the member `field` with the value `value`. An object has the
/// type named after the member, in PascalCase; an array has the type of its
/// first element between the array words.
pub open spec fn type_text(ts: TypeSystem, value: &Json, field: Seq<char>) -> Seq<char>
    decreases value,
{
    match value {
        Json::Null => word(ts, Word::Null),
        Json::Bool(_) => word(ts, Word::Boolean),
        Json::Number(n) => if n.is_f64 {
            word(ts, Word::Float)
        } else {
            word(ts, Word::Integer)
        },
        Json::Text(_) => word(ts, Word::Text),
        Json::Array(items) => if items@.len() == 0 {
            word(ts, Word::EmptyArray)
        } else if items@[0] is Object {
            word(ts, Word::ArrayOpen) + pascal_case(field) + word(ts, Word::ArrayClose)
        } else {
            word(ts, Word::ArrayOpen) + type_text(ts, &items@[0], field) + word(
                ts,
                Word::ArrayClose,
            )
        },
        Json::Object(_) => pascal_case(field),
    }
}

/// The object that the member `field` needs a type of its own for, with
/// the name of that type: the value itself where it is an object, and for an
/// array what its first element needs.
pub open spec fn nested_of(value: &Json, field: Seq<char>) -> Option<(Seq<char>, Json)>
    decreases value,
{
    match value {
        Json::Array(items) => if items@.len() == 0 {
            None
        } else {
            nested_of(&items@[0], field)
        },
        Json::Object(_) => Some((pascal_case(field), *value)),
        _ => None,
    }
}

/// What `nested_of` finds is an object inside `value`, or `value` itself.
pub proof fn lemma_nested_inside(value: &Json, field: Seq<char>)
    ensures
        nested_of(value, field) matches Some((name, child)) ==> name == pascal_case(field)
            && child is Object && (child == *value || decreases_to!(value => child)),
    decreases value,
{
    match value {
        Json::Array(items) => {
            if items@.len() > 0 {
                lemma_nested_inside(&items@[0], field);
            }
        },
        _ => {},
    }
}

/// Whether the entries of `list` are those of `model`, name by name and
/// value by value.
pub open spec fn lists(list: Seq<(String, &Json)>, model: Seq<(Seq<char>, Json)>) -> bool {
    &&& list.len() == model.len()
    &&& forall|j: int|
        0 <= j < list.len() ==> (#[trigger] list[j]).0@ == model[j].0 && *list[j].1 == model[j].1
}

/// `nested_of` as a list of one entry or none.
pub open spec fn nested_entry(value: &Json, field: Seq<char>) -> Seq<(Seq<char>, Json)> {
    match nested_of(value, field) {
        None => Seq::empty(),
        Some(entry) => seq![entry],
    }
}

/// Infers the type of the member `field_name` in the type system `ts`, and
/// puts the object that needs a type of its own, if there is one, at the end of
/// `nested`.
pub fn infer_type<'a>(
    ts: TypeSystem,
    value: &'a Json,
    field_name: &str,
    nested: &mut Vec<(String, &'a Json)>,
) -> (ty: String)
    ensures
        ty@ == type_text(ts, value, field_name@),
        forall|model: Seq<(Seq<char>, Json)>| #[trigger]
            lists(old(nested)@, model) ==> lists(
                final(nested)@,
                model + nested_entry(value, field_name@),
            ),
    decreases value,
{
    match value {
        Json::Null => String::from_str(word_of(ts, Word::Null)),
        Json::Bool(_) => String::from_str(word_of(ts, Word::Boolean)),
        Json::Number(n) => {
            if n.is_f64 {
                String::from_str(word_of(ts, Word::Float))
            } else {
                String::from_str(word_of(ts, Word::Integer))
            }
        },
        Json::Text(_) => String::from_str(word_of(ts, Word::Text)),
        Json::Array(items) => {
            if items.len() == 0 {
                String::from_str(word_of(ts, Word::EmptyArray))
            } else {
                let first: &'a Json = &items[0];
                let inner: String = match first {
                    Json::Object(_) => {
                        let nested_name: String = to_pascal_case(field_name);
                        let ghost before = nested@;
                        nested.push((nested_name.clone(), first));
                        proof {
                            assert(nested_of(first, field_name@) == Some(
                                (pascal_case(field_name@), *first),
                            ));
                            lemma_pushed(before, nested@, value, field_name@);
                        }
                        nested_name
                    },
                    _ => infer_type(ts, first, field_name, nested),
                };
                let mut ty: String = String::from_str(word_of(ts, Word::ArrayOpen));
                ty.append(inner.as_str());
                ty.append(word_of(ts, Word::ArrayClose));
                ty
            }
        },
        Json::Object(_) => {
            let nested_name: String = to_pascal_case(field_name);
            let ghost before = nested@;
            nested.push((nested_name.clone(), value));
            proof {
                lemma_pushed(before, nested@, value, field_name@);
            }
            nested_name
        },
    }
}

/// A list with the nested entry of `value` pushed lists its model with that
/// entry added.
proof fn lemma_pushed(
    before: Seq<(String, &Json)>,
    after: Seq<(String, &Json)>,
    value: &Json,
    field: Seq<char>,
)
    requires
        after.len() == before.len() + 1,
        forall|j: int| 0 <= j < before.len() ==> after[j] == before[j],
        nested_of(value, field) matches Some((name, child)) && after.last().0@ == name
            && *after.last().1 == child,
    ensures
        forall|model: Seq<(Seq<char>, Json)>| #[trigger]
            lists(before, model) ==> lists(after, model + nested_entry(value, field)),
{
    assert forall|model: Seq<(Seq<char>, Json)>| #[trigger] lists(before, model) implies lists(
        after,
        model + nested_entry(value, field),
    ) by {
        let longer = model + nested_entry(value, field);
        assert forall|j: int| 0 <= j < after.len() implies (#[trigger] after[j]).0@ == longer[j].0
            && *after[j].1 == longer[j].1 by {
            if j < before.len() {
                assert(after[j] == before[j]);
                assert(before[j].0@ == model[j].0);
            }
        }
    }
}

} // verus!
