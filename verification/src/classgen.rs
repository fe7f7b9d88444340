//! Code generation: type declarations in nine target languages for the shape
//! of a JSON object.

use vstd::prelude::*;
use vstd::string::StringExecFns;
use crate::casing::{
    camel_case, lowercase_text, pascal_case, snake_case, text_to_lowercase, to_camel_case,
    to_pascal_case, to_snake_case,
};
use crate::json::{json_parsing, parse_json, Json};
use crate::text::{blank, failure, is_blank, same_text, tells, TextOutcome};
use crate::typing::{infer_type, lemma_nested_inside, lists, nested_entry, type_text, TypeSystem};

verus! {

/// The target languages.
#[derive(Clone, Copy, Debug, PartialEq, Eq, Structural)]
pub enum Language {
    TypeScript,
    JavaScript,
    Python,
    Rust,
    Java,
    CSharp,
    Go,
    Kotlin,
    Swift,
}

/// The type system of a language; JavaScript declares its members without
/// types.
pub open spec fn type_system(lang: Language) -> Option<TypeSystem> {
    match lang {
        Language::TypeScript => Some(TypeSystem::TypeScript),
        Language::JavaScript => None,
        Language::Python => Some(TypeSystem::Python),
        Language::Rust => Some(TypeSystem::Rust),
        Language::Java => Some(TypeSystem::Java),
        Language::CSharp => Some(TypeSystem::CSharp),
        Language::Go => Some(TypeSystem::Go),
        Language::Kotlin => Some(TypeSystem::Kotlin),
        Language::Swift => Some(TypeSystem::Swift),
    }
}

/// Looks up the type system of a language.
pub fn type_system_of(lang: Language) -> (ts: Option<TypeSystem>)
    ensures
        ts == type_system(lang),
{
    match lang {
        Language::TypeScript => Some(TypeSystem::TypeScript),
        Language::JavaScript => None,
        Language::Python => Some(TypeSystem::Python),
        Language::Rust => Some(TypeSystem::Rust),
        Language::Java => Some(TypeSystem::Java),
        Language::CSharp => Some(TypeSystem::CSharp),
        Language::Go => Some(TypeSystem::Go),
        Language::Kotlin => Some(TypeSystem::Kotlin),
        Language::Swift => Some(TypeSystem::Swift),
    }
}

/// What a declaration starts with, up to its first member.
pub open spec fn prologue(lang: Language, name: Seq<char>) -> Seq<char> {
    match lang {
        Language::TypeScript => "interface "@ + name + " {\n"@,
        Language::JavaScript => "class "@ + name + " {\n"@ + "  constructor(data) {\n"@,
        Language::Python => "from dataclasses import dataclass\nfrom typing import List, Optional, Any\n\n"@
            + "@dataclass\n"@ + "class "@ + name + ":\n"@,
        Language::Rust => "use serde::{Deserialize, Serialize};\n\n"@
            + "#[derive(Debug, Serialize, Deserialize)]\n"@ + "pub struct "@ + name + " {\n"@,
        Language::Java => "import com.fasterxml.jackson.annotation.JsonProperty;\nimport java.util.List;\n\n"@
            + "public class "@ + name + " {\n"@,
        Language::CSharp => "using System.Collections.Generic;\nusing Newtonsoft.Json;\n\n"@
            + "public class "@ + name + "\n{\n"@,
        Language::Go => "package main\n\n"@ + "type "@ + name + " struct {\n"@,
        Language::Kotlin => "import com.google.gson.annotations.SerializedName\n\n"@
            + "data class "@ + name + "(\n"@,
        Language::Swift => "import Foundation\n\n"@ + "struct "@ + name + ": Codable {\n"@,
    }
}

/// The declaration of one member with the JSON key `key` and the type `ty`.
/// `last` says whether it is the last member, which Kotlin writes without a
/// comma behind it.
pub open spec fn member(lang: Language, key: Seq<char>, ty: Seq<char>, last: bool) -> Seq<char> {
    match lang {
        Language::TypeScript => "  "@ + key + ": "@ + ty + ";\n"@,
        Language::JavaScript => "    this."@ + key + " = data."@ + key + ";\n"@,
        Language::Python => "    "@ + snake_case(key) + ": "@ + ty + "\n"@,
        Language::Rust => "    pub "@ + snake_case(key) + ": "@ + ty + ",\n"@,
        Language::Java => "    @JsonProperty(\""@ + key + "\")\n"@ + "    private "@ + ty + " "@
            + camel_case(key) + ";\n\n"@,
        Language::CSharp => "    [JsonProperty(\""@ + key + "\")]\n"@ + "    public "@ + ty + " "@
            + pascal_case(key) + " { get; set; }\n\n"@,
        Language::Go => "    "@ + pascal_case(key) + " "@ + ty + " `json:\""@ + key + "\"`\n"@,
        Language::Kotlin => "    @SerializedName(\""@ + key + "\")\n"@ + "    val "@ + camel_case(
            key,
        ) + ": "@ + ty + (if last {
            ""@
        } else {
            ","@
        }) + "\n"@,
        Language::Swift => "    let "@ + camel_case(key) + ": "@ + ty + "\n"@,
    }
}

/// The getter that a Java class has for one member.
pub open spec fn getter(key: Seq<char>, ty: Seq<char>) -> Seq<char> {
    "    public "@ + ty + " "@ + ("get"@ + pascal_case(key)) + "() {\n"@ + "        return "@
        + camel_case(key) + ";\n"@ + "    }\n\n"@
}

/// The setter that a Java class has for one member.
pub open spec fn setter(key: Seq<char>, ty: Seq<char>) -> Seq<char> {
    "    public void "@ + ("set"@ + pascal_case(key)) + "("@ + ty + " "@ + camel_case(key)
        + ") {\n"@ + "        this."@ + camel_case(key) + " = "@ + camel_case(key) + ";\n"@
        + "    }\n\n"@
}

/// The getter and the setter that a Java class has for one member.
pub open spec fn accessor(key: Seq<char>, ty: Seq<char>) -> Seq<char> {
    getter(key, ty) + setter(key, ty)
}

/// The type of a member as the language writes it; nothing for JavaScript.
pub open spec fn member_type(lang: Language, value: &Json, key: Seq<char>) -> Seq<char> {
    match type_system(lang) {
        Some(ts) => type_text(ts, value, key),
        None => Seq::empty(),
    }
}

/// The declarations of the first `n` members of an object.
pub open spec fn members(lang: Language, fields: Seq<(String, Json)>, n: int) -> Seq<char>
    decreases n,
{
    if n <= 0 || n > fields.len() {
        Seq::empty()
    } else {
        members(lang, fields, n - 1) + member(
            lang,
            fields[n - 1].0@,
            member_type(lang, &fields[n - 1].1, fields[n - 1].0@),
            n == fields.len(),
        )
    }
}

/// The accessors of the first `n` members of an object, for Java.
pub open spec fn accessors(fields: Seq<(String, Json)>, n: int) -> Seq<char>
    decreases n,
{
    if n <= 0 || n > fields.len() {
        Seq::empty()
    } else {
        accessors(fields, n - 1) + accessor(
            fields[n - 1].0@,
            type_text(TypeSystem::Java, &fields[n - 1].1, fields[n - 1].0@),
        )
    }
}

/// What closes a declaration after its members.
pub open spec fn epilogue(lang: Language, fields: Seq<(String, Json)>) -> Seq<char> {
    match lang {
        Language::TypeScript => "}\n"@,
        Language::JavaScript => "  }\n"@ + "}\n"@,
        Language::Python => Seq::empty(),
        Language::Rust => "}\n"@,
        Language::Java => accessors(fields, fields.len() as int) + "}\n"@,
        Language::CSharp => "}\n"@,
        Language::Go => "}\n"@,
        Language::Kotlin => ")\n"@,
        Language::Swift => "}\n"@,
    }
}

/// The declaration for the object `value` under the name `name`, followed
/// by the declarations that its members need, each after an empty line.
/// Nothing for a value that is no object.
pub open spec fn class_text(lang: Language, value: &Json, name: Seq<char>) -> Seq<char>
    decreases value, 1int, 0int,
{
    match value {
        Json::Object(fields) => prologue(lang, name) + members(
            lang,
            fields@,
            fields@.len() as int,
        ) + epilogue(lang, fields@) + nested_text(lang, value, fields@.len() as int),
        _ => Seq::empty(),
    }
}

/// The declarations that the first `n` members of the object `value` need.
pub open spec fn nested_text(lang: Language, value: &Json, n: int) -> Seq<char>
    decreases value, 0int, n,
{
    match value {
        Json::Object(fields) => if n <= 0 || n > fields@.len() {
            Seq::empty()
        } else {
            nested_text(lang, value, n - 1) + nested_class(
                lang,
                &fields@[n - 1].1,
                fields@[n - 1].0@,
            )
        },
        _ => Seq::empty(),
    }
}

/// The declaration that the member `field` with the value `value` needs: for
/// an object its class, named after the member, behind an empty line; for an
/// array what its first element needs; nothing else, and nothing in JavaScript.
pub open spec fn nested_class(lang: Language, value: &Json, field: Seq<char>) -> Seq<char>
    decreases value, 2int, 0int,
{
    if type_system(lang) is None {
        Seq::empty()
    } else {
        match value {
            Json::Array(items) => if items@.len() == 0 {
                Seq::empty()
            } else {
                nested_class(lang, &items@[0], field)
            },
            Json::Object(_) => "\n"@ + class_text(lang, value, pascal_case(field)),
            _ => Seq::empty(),
        }
    }
}

/// Appends the start of a declaration.
fn push_prologue(out: &mut String, lang: Language, name: &str)
    ensures
        final(out)@ == old(out)@ + prologue(lang, name@),
{
    match lang {
        Language::TypeScript => {
            out.append("interface ");
            out.append(name);
            out.append(" {\n");
        },
        Language::JavaScript => {
            out.append("class ");
            out.append(name);
            out.append(" {\n");
            out.append("  constructor(data) {\n");
        },
        Language::Python => {
            out.append(
                "from dataclasses import dataclass\nfrom typing import List, Optional, Any\n\n",
            );
            out.append("@dataclass\n");
            out.append("class ");
            out.append(name);
            out.append(":\n");
        },
        Language::Rust => {
            out.append("use serde::{Deserialize, Serialize};\n\n");
            out.append("#[derive(Debug, Serialize, Deserialize)]\n");
            out.append("pub struct ");
            out.append(name);
            out.append(" {\n");
        },
        Language::Java => {
            out.append(
                "import com.fasterxml.jackson.annotation.JsonProperty;\nimport java.util.List;\n\n",
            );
            out.append("public class ");
            out.append(name);
            out.append(" {\n");
        },
        Language::CSharp => {
            out.append("using System.Collections.Generic;\nusing Newtonsoft.Json;\n\n");
            out.append("public class ");
            out.append(name);
            out.append("\n{\n");
        },
        Language::Go => {
            out.append("package main\n\n");
            out.append("type ");
            out.append(name);
            out.append(" struct {\n");
        },
        Language::Kotlin => {
            out.append("import com.google.gson.annotations.SerializedName\n\n");
            out.append("data class ");
            out.append(name);
            out.append("(\n");
        },
        Language::Swift => {
            out.append("import Foundation\n\n");
            out.append("struct ");
            out.append(name);
            out.append(": Codable {\n");
        },
    }
    assert(out@ =~= old(out)@ + prologue(lang, name@));
}

/// Appends the declaration of one member.
fn push_member(out: &mut String, lang: Language, key: &str, ty: &str, last: bool)
    ensures
        final(out)@ == old(out)@ + member(lang, key@, ty@, last),
{
    match lang {
        Language::TypeScript => {
            out.append("  ");
            out.append(key);
            out.append(": ");
            out.append(ty);
            out.append(";\n");
        },
        Language::JavaScript => {
            out.append("    this.");
            out.append(key);
            out.append(" = data.");
            out.append(key);
            out.append(";\n");
        },
        Language::Python => {
            out.append("    ");
            out.append(to_snake_case(key).as_str());
            out.append(": ");
            out.append(ty);
            out.append("\n");
        },
        Language::Rust => {
            out.append("    pub ");
            out.append(to_snake_case(key).as_str());
            out.append(": ");
            out.append(ty);
            out.append(",\n");
        },
        Language::Java => {
            out.append("    @JsonProperty(\"");
            out.append(key);
            out.append("\")\n");
            out.append("    private ");
            out.append(ty);
            out.append(" ");
            out.append(to_camel_case(key).as_str());
            out.append(";\n\n");
        },
        Language::CSharp => {
            out.append("    [JsonProperty(\"");
            out.append(key);
            out.append("\")]\n");
            out.append("    public ");
            out.append(ty);
            out.append(" ");
            out.append(to_pascal_case(key).as_str());
            out.append(" { get; set; }\n\n");
        },
        Language::Go => {
            out.append("    ");
            out.append(to_pascal_case(key).as_str());
            out.append(" ");
            out.append(ty);
            out.append(" `json:\"");
            out.append(key);
            out.append("\"`\n");
        },
        Language::Kotlin => {
            out.append("    @SerializedName(\"");
            out.append(key);
            out.append("\")\n");
            out.append("    val ");
            out.append(to_camel_case(key).as_str());
            out.append(": ");
            out.append(ty);
            if last {
                out.append("");
            } else {
                out.append(",");
            }
            out.append("\n");
        },
        Language::Swift => {
            out.append("    let ");
            out.append(to_camel_case(key).as_str());
            out.append(": ");
            out.append(ty);
            out.append("\n");
        },
    }
    assert(out@ =~= old(out)@ + member(lang, key@, ty@, last));
}

/// Appends the getter of one member of a Java class.
fn push_getter(out: &mut String, key: &str, ty: &str)
    ensures
        final(out)@ == old(out)@ + getter(key@, ty@),
{
    let field_name: String = to_camel_case(key);
    let getter_name: String = String::from_str("get").concat(to_pascal_case(key).as_str());
    out.append("    public ");
    out.append(ty);
    out.append(" ");
    out.append(getter_name.as_str());
    out.append("() {\n");
    out.append("        return ");
    out.append(field_name.as_str());
    out.append(";\n");
    out.append("    }\n\n");
    assert(out@ =~= old(out)@ + getter(key@, ty@));
}

/// Appends the setter of one member of a Java class.
fn push_setter(out: &mut String, key: &str, ty: &str)
    ensures
        final(out)@ == old(out)@ + setter(key@, ty@),
{
    let field_name: String = to_camel_case(key);
    let setter_name: String = String::from_str("set").concat(to_pascal_case(key).as_str());
    out.append("    public void ");
    out.append(setter_name.as_str());
    out.append("(");
    out.append(ty);
    out.append(" ");
    out.append(field_name.as_str());
    out.append(") {\n");
    out.append("        this.");
    out.append(field_name.as_str());
    out.append(" = ");
    out.append(field_name.as_str());
    out.append(";\n");
    out.append("    }\n\n");
    assert(out@ =~= old(out)@ + setter(key@, ty@));
}

/// Appends the getter and the setter of one member of a Java class.
fn push_accessor(out: &mut String, key: &str, ty: &str)
    ensures
        final(out)@ == old(out)@ + accessor(key@, ty@),
{
    push_getter(out, key, ty);
    push_setter(out, key, ty);
    assert(out@ =~= old(out)@ + accessor(key@, ty@));
}

/// Appends what closes a declaration.
fn push_epilogue(out: &mut String, lang: Language, fields: &Vec<(String, Json)>)
    ensures
        final(out)@ == old(out)@ + epilogue(lang, fields@),
{
    match lang {
        Language::JavaScript => {
            out.append("  }\n");
            out.append("}\n");
        },
        Language::Python => {},
        Language::Java => {
            let mut i: usize = 0;
            while i < fields.len()
                invariant
                    i <= fields@.len(),
                    out@ == old(out)@ + accessors(fields@, i as int),
                decreases fields@.len() - i,
            {
                let key: &str = fields[i].0.as_str();
                let mut unused: Vec<(String, &Json)> = Vec::new();
                let ty: String = infer_type(TypeSystem::Java, &fields[i].1, key, &mut unused);
                push_accessor(out, key, ty.as_str());
                i = i + 1;
                assert(out@ =~= old(out)@ + accessors(fields@, i as int));
            }
            out.append("}\n");
        },
        Language::Kotlin => {
            out.append(")\n");
        },
        _ => {
            out.append("}\n");
        },
    }
    assert(out@ =~= old(out)@ + epilogue(lang, fields@));
}

/// The objects that the first `n` members need declarations for, in the
/// order of the members, each with the name of its declaration.
pub open spec fn nested_list(lang: Language, fields: Seq<(String, Json)>, n: int) -> Seq<
    (Seq<char>, Json),
>
    decreases n,
{
    if type_system(lang) is None || n <= 0 || n > fields.len() {
        Seq::empty()
    } else {
        nested_list(lang, fields, n - 1) + nested_entry(&fields[n - 1].1, fields[n - 1].0@)
    }
}

/// The declarations of the first `k` entries of `list`, each behind an empty
/// line.
pub open spec fn classes_text(lang: Language, list: Seq<(Seq<char>, Json)>, k: int) -> Seq<char>
    decreases k,
{
    if k <= 0 || k > list.len() {
        Seq::empty()
    } else {
        classes_text(lang, list, k - 1) + ("\n"@ + class_text(lang, &list[k - 1].1, list[k - 1].0))
    }
}

proof fn lemma_classes_prefix(
    lang: Language,
    a: Seq<(Seq<char>, Json)>,
    b: Seq<(Seq<char>, Json)>,
    k: int,
)
    requires
        0 <= k <= a.len(),
    ensures
        classes_text(lang, a + b, k) == classes_text(lang, a, k),
    decreases k,
{
    if k > 0 {
        lemma_classes_prefix(lang, a, b, k - 1);
        assert((a + b)[k - 1] == a[k - 1]);
    }
}

proof fn lemma_classes_joined(lang: Language, a: Seq<(Seq<char>, Json)>, b: Seq<(Seq<char>, Json)>)
    requires
        b.len() <= 1,
    ensures
        classes_text(lang, a + b, (a + b).len() as int) == classes_text(lang, a, a.len() as int)
            + classes_text(lang, b, b.len() as int),
{
    if b.len() == 0 {
        assert(a + b =~= a);
        assert(classes_text(lang, a, a.len() as int) + Seq::<char>::empty() =~= classes_text(
            lang,
            a,
            a.len() as int,
        ));
    } else {
        let joined = a + b;
        lemma_classes_prefix(lang, a, b, a.len() as int);
        assert(joined[joined.len() - 1] == b[0]);
        assert(classes_text(lang, b, 0) =~= Seq::<char>::empty());
        assert(classes_text(lang, b, 1) =~= "\n"@ + class_text(lang, &b[0].1, b[0].0));
    }
}

/// What a member needs is the declaration of its nested entry.
proof fn lemma_nested_class(lang: Language, value: &Json, field: Seq<char>)
    requires
        type_system(lang) is Some,
    ensures
        nested_class(lang, value, field) == classes_text(
            lang,
            nested_entry(value, field),
            nested_entry(value, field).len() as int,
        ),
    decreases value,
{
    match value {
        Json::Array(items) => {
            if items@.len() > 0 {
                lemma_nested_class(lang, &items@[0], field);
            }
        },
        Json::Object(_) => {
            let entry = nested_entry(value, field);
            assert(entry.len() == 1);
            assert(entry[0] == (pascal_case(field), *value));
            assert(classes_text(lang, entry, 0) =~= Seq::<char>::empty());
            assert(classes_text(lang, entry, 1) =~= "\n"@ + class_text(
                lang,
                value,
                pascal_case(field),
            ));
        },
        _ => {},
    }
}

/// The declarations that the members need are those of the nested list.
proof fn lemma_nested_text(lang: Language, value: &Json, n: int)
    requires
        value is Object,
        0 <= n <= value->Object_0@.len(),
    ensures
        nested_text(lang, value, n) == classes_text(
            lang,
            nested_list(lang, value->Object_0@, n),
            nested_list(lang, value->Object_0@, n).len() as int,
        ),
    decreases n,
{
    let fields = value->Object_0@;
    if n > 0 {
        lemma_nested_text(lang, value, n - 1);
        let v = &fields[n - 1].1;
        let key = fields[n - 1].0@;
        if type_system(lang) is Some {
            lemma_nested_class(lang, v, key);
            lemma_classes_joined(lang, nested_list(lang, fields, n - 1), nested_entry(v, key));
        } else {
            assert(nested_text(lang, value, n) =~= Seq::<char>::empty());
        }
    }
}

/// Every entry of the nested list is an object inside `value`.
proof fn lemma_nested_list_inside(lang: Language, value: &Json, n: int, j: int)
    requires
        value is Object,
        0 <= n <= value->Object_0@.len(),
        0 <= j < nested_list(lang, value->Object_0@, n).len(),
    ensures
        nested_list(lang, value->Object_0@, n)[j].1 is Object,
        decreases_to!(value => nested_list(lang, value->Object_0@, n)[j].1),
    decreases n,
{
    let fields = value->Object_0@;
    if n > 0 {
        let shorter = nested_list(lang, fields, n - 1);
        if j < shorter.len() {
            lemma_nested_list_inside(lang, value, n - 1, j);
        } else {
            lemma_nested_inside(&fields[n - 1].1, fields[n - 1].0@);
        }
    }
}

/// How generating a declaration for `value` ends.
pub open spec fn class_outcome(lang: Language, value: &Json, name: Seq<char>) -> TextOutcome {
    if value is Object {
        TextOutcome::Done(class_text(lang, value, name))
    } else {
        TextOutcome::Refused("Input must be a JSON object"@)
    }
}

/// Generates the declaration of the object `value` in the language `lang`,
/// under the name `class_name`, and behind it the declarations of the objects
/// that its members hold.
pub fn generate_class(lang: Language, value: &Json, class_name: &str) -> (result: Result<
    String,
    String,
>)
    ensures
        tells(result, class_outcome(lang, value, class_name@)),
    decreases value,
{
    let fields: &Vec<(String, Json)> = match value {
        Json::Object(fields) => fields,
        _ => {
            return Err(String::from_str("Input must be a JSON object"));
        },
    };
    let mut output: String = String::new();
    push_prologue(&mut output, lang, class_name);
    let mut nested: Vec<(String, &Json)> = Vec::new();
    let ts: Option<TypeSystem> = type_system_of(lang);
    let count: usize = fields.len();
    let mut i: usize = 0;
    while i < count
        invariant
            i <= count,
            count == fields@.len(),
            ts == type_system(lang),
            output@ == prologue(lang, class_name@) + members(lang, fields@, i as int),
            lists(nested@, nested_list(lang, fields@, i as int)),
        decreases count - i,
    {
        let key: &str = fields[i].0.as_str();
        let ghost model = nested_list(lang, fields@, i as int);
        let ty: String = match ts {
            Some(system) => infer_type(system, &fields[i].1, key, &mut nested),
            None => String::new(),
        };
        push_member(&mut output, lang, key, ty.as_str(), i + 1 == count);
        i = i + 1;
        assert(output@ =~= prologue(lang, class_name@) + members(lang, fields@, i as int));
    }
    push_epilogue(&mut output, lang, fields);
    let ghost model = nested_list(lang, fields@, count as int);
    let ghost start = prologue(lang, class_name@) + members(lang, fields@, count as int)
        + epilogue(lang, fields@);
    let mut j: usize = 0;
    while j < nested.len()
        invariant
            j <= nested@.len(),
            value is Object,
            fields@ == value->Object_0@,
            count == fields@.len(),
            model == nested_list(lang, fields@, count as int),
            lists(nested@, model),
            output@ == start + classes_text(lang, model, j as int),
        decreases nested@.len() - j,
    {
        let child: &Json = nested[j].1;
        proof {
            lemma_nested_list_inside(lang, value, count as int, j as int);
        }
        output.push('\n');
        match generate_class(lang, child, nested[j].0.as_str()) {
            Ok(text) => {
                output.append(text.as_str());
            },
            Err(e) => {
                return Err(e);
            },
        }
        j = j + 1;
        proof {
            reveal_strlit("\n");
            assert("\n"@ =~= seq!['\n']);
            assert(output@ =~= start + classes_text(lang, model, j as int));
        }
    }
    proof {
        lemma_nested_text(lang, value, count as int);
        assert(output@ =~= class_text(lang, value, class_name@));
    }
    Ok(output)
}

/// Generates a TypeScript interface for the object `value`.
pub fn generate_typescript_class(value: &Json, class_name: &str) -> (result: Result<String, String>)
    ensures
        tells(result, class_outcome(Language::TypeScript, value, class_name@)),
{
    generate_class(Language::TypeScript, value, class_name)
}

/// Generates a JavaScript class for the object `value`.
pub fn generate_javascript_class(value: &Json, class_name: &str) -> (result: Result<String, String>)
    ensures
        tells(result, class_outcome(Language::JavaScript, value, class_name@)),
{
    generate_class(Language::JavaScript, value, class_name)
}

/// Generates a Python dataclass for the object `value`.
pub fn generate_python_class(value: &Json, class_name: &str) -> (result: Result<String, String>)
    ensures
        tells(result, class_outcome(Language::Python, value, class_name@)),
{
    generate_class(Language::Python, value, class_name)
}

/// Generates a Rust struct for the object `value`.
pub fn generate_rust_struct(value: &Json, struct_name: &str) -> (result: Result<String, String>)
    ensures
        tells(result, class_outcome(Language::Rust, value, struct_name@)),
{
    generate_class(Language::Rust, value, struct_name)
}

/// Generates a Java class for the object `value`.
pub fn generate_java_class(value: &Json, class_name: &str) -> (result: Result<String, String>)
    ensures
        tells(result, class_outcome(Language::Java, value, class_name@)),
{
    generate_class(Language::Java, value, class_name)
}

/// Generates a C# class for the object `value`.
pub fn generate_csharp_class(value: &Json, class_name: &str) -> (result: Result<String, String>)
    ensures
        tells(result, class_outcome(Language::CSharp, value, class_name@)),
{
    generate_class(Language::CSharp, value, class_name)
}

/// Generates a Go struct for the object `value`.
pub fn generate_go_struct(value: &Json, struct_name: &str) -> (result: Result<String, String>)
    ensures
        tells(result, class_outcome(Language::Go, value, struct_name@)),
{
    generate_class(Language::Go, value, struct_name)
}

/// Generates a Kotlin data class for the object `value`.
pub fn generate_kotlin_class(value: &Json, class_name: &str) -> (result: Result<String, String>)
    ensures
        tells(result, class_outcome(Language::Kotlin, value, class_name@)),
{
    generate_class(Language::Kotlin, value, class_name)
}

/// Generates a Swift struct for the object `value`.
pub fn generate_swift_struct(value: &Json, struct_name: &str) -> (result: Result<String, String>)
    ensures
        tells(result, class_outcome(Language::Swift, value, struct_name@)),
{
    generate_class(Language::Swift, value, struct_name)
}

/// Infers the TypeScript type of the member `field_name`; see `infer_type`.
pub fn infer_typescript_type<'a>(
    value: &'a Json,
    field_name: &str,
    nested: &mut Vec<(String, &'a Json)>,
) -> (ty: String)
    ensures
        ty@ == type_text(TypeSystem::TypeScript, value, field_name@),
        forall|model: Seq<(Seq<char>, Json)>| #[trigger]
            lists(old(nested)@, model) ==> lists(
                final(nested)@,
                model + nested_entry(value, field_name@),
            ),
{
    infer_type(TypeSystem::TypeScript, value, field_name, nested)
}

/// Infers the Python type of the member `field_name`; see `infer_type`.
pub fn infer_python_type<'a>(
    value: &'a Json,
    field_name: &str,
    nested: &mut Vec<(String, &'a Json)>,
) -> (ty: String)
    ensures
        ty@ == type_text(TypeSystem::Python, value, field_name@),
        forall|model: Seq<(Seq<char>, Json)>| #[trigger]
            lists(old(nested)@, model) ==> lists(
                final(nested)@,
                model + nested_entry(value, field_name@),
            ),
{
    infer_type(TypeSystem::Python, value, field_name, nested)
}

/// Infers the Rust type of the member `field_name`; see `infer_type`.
pub fn infer_rust_type<'a>(
    value: &'a Json,
    field_name: &str,
    nested: &mut Vec<(String, &'a Json)>,
) -> (ty: String)
    ensures
        ty@ == type_text(TypeSystem::Rust, value, field_name@),
        forall|model: Seq<(Seq<char>, Json)>| #[trigger]
            lists(old(nested)@, model) ==> lists(
                final(nested)@,
                model + nested_entry(value, field_name@),
            ),
{
    infer_type(TypeSystem::Rust, value, field_name, nested)
}

/// Infers the Java type of the member `field_name`; see `infer_type`.
pub fn infer_java_type<'a>(
    value: &'a Json,
    field_name: &str,
    nested: &mut Vec<(String, &'a Json)>,
) -> (ty: String)
    ensures
        ty@ == type_text(TypeSystem::Java, value, field_name@),
        forall|model: Seq<(Seq<char>, Json)>| #[trigger]
            lists(old(nested)@, model) ==> lists(
                final(nested)@,
                model + nested_entry(value, field_name@),
            ),
{
    infer_type(TypeSystem::Java, value, field_name, nested)
}

/// Infers the C# type of the member `field_name`; see `infer_type`.
pub fn infer_csharp_type<'a>(
    value: &'a Json,
    field_name: &str,
    nested: &mut Vec<(String, &'a Json)>,
) -> (ty: String)
    ensures
        ty@ == type_text(TypeSystem::CSharp, value, field_name@),
        forall|model: Seq<(Seq<char>, Json)>| #[trigger]
            lists(old(nested)@, model) ==> lists(
                final(nested)@,
                model + nested_entry(value, field_name@),
            ),
{
    infer_type(TypeSystem::CSharp, value, field_name, nested)
}

/// Infers the Go type of the member `field_name`; see `infer_type`.
pub fn infer_go_type<'a>(
    value: &'a Json,
    field_name: &str,
    nested: &mut Vec<(String, &'a Json)>,
) -> (ty: String)
    ensures
        ty@ == type_text(TypeSystem::Go, value, field_name@),
        forall|model: Seq<(Seq<char>, Json)>| #[trigger]
            lists(old(nested)@, model) ==> lists(
                final(nested)@,
                model + nested_entry(value, field_name@),
            ),
{
    infer_type(TypeSystem::Go, value, field_name, nested)
}

/// Infers the Kotlin type of the member `field_name`; see `infer_type`.
pub fn infer_kotlin_type<'a>(
    value: &'a Json,
    field_name: &str,
    nested: &mut Vec<(String, &'a Json)>,
) -> (ty: String)
    ensures
        ty@ == type_text(TypeSystem::Kotlin, value, field_name@),
        forall|model: Seq<(Seq<char>, Json)>| #[trigger]
            lists(old(nested)@, model) ==> lists(
                final(nested)@,
                model + nested_entry(value, field_name@),
            ),
{
    infer_type(TypeSystem::Kotlin, value, field_name, nested)
}

/// Infers the Swift type of the member `field_name`; see `infer_type`.
pub fn infer_swift_type<'a>(
    value: &'a Json,
    field_name: &str,
    nested: &mut Vec<(String, &'a Json)>,
) -> (ty: String)
    ensures
        ty@ == type_text(TypeSystem::Swift, value, field_name@),
        forall|model: Seq<(Seq<char>, Json)>| #[trigger]
            lists(old(nested)@, model) ==> lists(
                final(nested)@,
                model + nested_entry(value, field_name@),
            ),
{
    infer_type(TypeSystem::Swift, value, field_name, nested)
}

/// The language that a name stands for, the name taken in lowercase.
pub open spec fn language_named(lower: Seq<char>) -> Option<Language> {
    if lower == "typescript"@ {
        Some(Language::TypeScript)
    } else if lower == "javascript"@ {
        Some(Language::JavaScript)
    } else if lower == "python"@ {
        Some(Language::Python)
    } else if lower == "rust"@ {
        Some(Language::Rust)
    } else if lower == "java"@ {
        Some(Language::Java)
    } else if lower == "csharp"@ || lower == "c#"@ {
        Some(Language::CSharp)
    } else if lower == "go"@ {
        Some(Language::Go)
    } else if lower == "kotlin"@ {
        Some(Language::Kotlin)
    } else if lower == "swift"@ {
        Some(Language::Swift)
    } else {
        None
    }
}

/// Finds the language that `name` stands for, in whatever case it is written.
pub fn language_of(name: &str) -> (lang: Option<Language>)
    ensures
        lang == language_named(lowercase_text(name@)),
{
    let lowered: String = text_to_lowercase(name);
    let lower: &str = lowered.as_str();
    if same_text(lower, "typescript") {
        Some(Language::TypeScript)
    } else if same_text(lower, "javascript") {
        Some(Language::JavaScript)
    } else if same_text(lower, "python") {
        Some(Language::Python)
    } else if same_text(lower, "rust") {
        Some(Language::Rust)
    } else if same_text(lower, "java") {
        Some(Language::Java)
    } else if same_text(lower, "csharp") || same_text(lower, "c#") {
        Some(Language::CSharp)
    } else if same_text(lower, "go") {
        Some(Language::Go)
    } else if same_text(lower, "kotlin") {
        Some(Language::Kotlin)
    } else if same_text(lower, "swift") {
        Some(Language::Swift)
    } else {
        None
    }
}

/// The name of the outermost declaration: `name`, or `Root` where none is
/// given.
pub open spec fn root_name(name: Seq<char>) -> Seq<char> {
    if name.len() == 0 {
        "Root"@
    } else {
        name
    }
}

/// How generating declarations from the JSON text `input` ends.
pub open spec fn json_to_class_outcome(
    input: Seq<char>,
    language: Seq<char>,
    name: Seq<char>,
) -> TextOutcome {
    if blank(input) {
        TextOutcome::Refused("Input is empty"@)
    } else {
        match json_parsing(input) {
            Err(why) => TextOutcome::Refused("Invalid JSON: "@ + why),
            Ok(value) => match language_named(lowercase_text(language)) {
                None => TextOutcome::Refused("Unsupported language: "@ + language),
                Some(lang) => class_outcome(lang, &value, root_name(name)),
            },
        }
    }
}

/// Converts a JSON document to type declarations in the language that
/// `language` names. The outermost declaration is called `name`, or `Root`
/// where `name` is empty.
pub fn json_to_class(input: &str, language: &str, name: &str) -> (result: Result<String, String>)
    ensures
        tells(result, json_to_class_outcome(input@, language@, name@)),
{
    if is_blank(input) {
        return Err(String::from_str("Input is empty"));
    }
    let parsed: Json = match parse_json(input) {
        Err(e) => {
            return Err(failure("Invalid JSON: ", e.as_str()));
        },
        Ok(value) => value,
    };
    let final_class_name: &str = if name.is_empty() {
        "Root"
    } else {
        name
    };
    match language_of(language) {
        None => Err(String::from_str("Unsupported language: ").concat(language)),
        Some(lang) => generate_class(lang, &parsed, final_class_name),
    }
}

} // verus!
