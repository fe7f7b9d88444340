//! Schema generation: a Protocol Buffers (proto3) schema for the shape of a
//! JSON object.

use vstd::prelude::*;
use vstd::string::StringExecFns;
use crate::casing::{pascal_case, snake_case, to_pascal_case, to_snake_case};
use crate::json::{json_parsing, parse_json, Json};
use crate::text::{
    blank, decimal, failure, is_blank, push_decimal, replace_all, replaced, tells, TextOutcome,
};
use crate::typing::lists;

verus! {

/// The proto3 type of the member `field` with the value `value`. An object
/// has the message type named after the member, in PascalCase; an array is a
/// repeated field of the type of its first element, `repeated` written once.
pub open spec fn proto_type(value: &Json, field: Seq<char>) -> Seq<char>
    decreases value,
{
    match value {
        Json::Null => "string"@,
        Json::Bool(_) => "bool"@,
        Json::Number(n) => if n.is_f64 {
            "double"@
        } else if n.is_i64 {
            if n.as_i64 matches Some(num) && i32::MIN <= num <= i32::MAX {
                "int32"@
            } else {
                "int64"@
            }
        } else {
            "uint64"@
        },
        Json::Text(_) => "string"@,
        Json::Array(items) => if items@.len() == 0 {
            "repeated string"@
        } else if items@[0] is Object {
            "repeated "@ + pascal_case(field)
        } else {
            "repeated "@ + replaced(proto_type(&items@[0], field), "repeated "@, ""@)
        },
        Json::Object(_) => pascal_case(field),
    }
}

/// The name of the message that the member `field` needs: an object and an
/// array of objects need one, named after the member.
pub open spec fn proto_nested(value: &Json, field: Seq<char>) -> Option<Seq<char>> {
    match value {
        Json::Array(items) => if items@.len() > 0 && items@[0] is Object {
            Some(pascal_case(field))
        } else {
            None
        },
        Json::Object(_) => Some(pascal_case(field)),
        _ => None,
    }
}

/// How many message types the inference of one member counts: one for an
/// object, and for an array what its first element counts.
pub open spec fn proto_count(value: &Json) -> nat
    decreases value,
{
    match value {
        Json::Array(items) => if items@.len() == 0 {
            0
        } else {
            proto_count(&items@[0])
        },
        Json::Object(_) => 1,
        _ => 0,
    }
}

/// A counter after `more` steps; it stays at `i32::MAX` once it is there.
pub open spec fn bumped(counter: int, more: nat) -> int {
    if counter + more > i32::MAX {
        i32::MAX as int
    } else {
        counter + more
    }
}

/// Counts one message type.
fn bump(counter: &mut i32)
    ensures
        *final(counter) == bumped(*old(counter) as int, 1),
{
    if *counter < i32::MAX {
        *counter = *counter + 1;
    }
}

/// Infers the proto3 type of the member `field_name`, and with it the name
/// of the message that the member needs, if it needs one. `counter` counts
/// the message types met.
pub fn infer_proto_type(value: &Json, field_name: &str, counter: &mut i32) -> (inferred: (
    String,
    Option<String>,
))
    ensures
        inferred.0@ == proto_type(value, field_name@),
        match proto_nested(value, field_name@) {
            Some(name) => inferred.1 matches Some(n) && n@ == name,
            None => inferred.1 is None,
        },
        *final(counter) == bumped(*old(counter) as int, proto_count(value)),
    decreases value,
{
    match value {
        Json::Null => (String::from_str("string"), None),
        Json::Bool(_) => (String::from_str("bool"), None),
        Json::Number(n) => {
            if n.is_f64 {
                (String::from_str("double"), None)
            } else if n.is_i64 {
                match n.as_i64 {
                    Some(num) => {
                        if num >= i32::MIN as i64 && num <= i32::MAX as i64 {
                            (String::from_str("int32"), None)
                        } else {
                            (String::from_str("int64"), None)
                        }
                    },
                    None => (String::from_str("int64"), None),
                }
            } else {
                (String::from_str("uint64"), None)
            }
        },
        Json::Text(_) => (String::from_str("string"), None),
        Json::Array(items) => {
            if items.len() == 0 {
                (String::from_str("repeated string"), None)
            } else {
                let first: &Json = &items[0];
                match first {
                    Json::Object(_) => {
                        assert(proto_count(first) == 1);
                        bump(counter);
                        let nested_name: String = to_pascal_case(field_name);
                        (
                            String::from_str("repeated ").concat(nested_name.as_str()),
                            Some(nested_name),
                        )
                    },
                    _ => {
                        let (inner_type, _) = infer_proto_type(first, field_name, counter);
                        let base_type: String = replace_all(inner_type.as_str(), "repeated ", "");
                        (String::from_str("repeated ").concat(base_type.as_str()), None)
                    },
                }
            }
        },
        Json::Object(_) => {
            bump(counter);
            let nested_name: String = to_pascal_case(field_name);
            (nested_name.clone(), Some(nested_name))
        },
    }
}

/// An indent of `levels` steps, two spaces each.
pub open spec fn indent_text(levels: nat) -> Seq<char>
    decreases levels,
{
    if levels == 0 {
        Seq::empty()
    } else {
        indent_text((levels - 1) as nat) + "  "@
    }
}

/// Builds an indent of `levels` steps.
pub fn indent_of(levels: usize) -> (text: String)
    ensures
        text@ == indent_text(levels as nat),
{
    let mut text: String = String::new();
    let mut i: usize = 0;
    while i < levels
        invariant
            i <= levels,
            text@ == indent_text(i as nat),
        decreases levels - i,
    {
        text.append("  ");
        i = i + 1;
    }
    text
}

/// The line that declares one field: indent, type, name in snake_case and
/// field number.
pub open spec fn proto_field(
    indent: Seq<char>,
    value: &Json,
    key: Seq<char>,
    number: nat,
) -> Seq<char> {
    indent + "  "@ + proto_type(value, key) + " "@ + snake_case(key) + " = "@ + decimal(number)
        + ";\n"@
}

/// The lines that declare the first `n` members, numbered from 1.
pub open spec fn proto_fields(indent: Seq<char>, fields: Seq<(String, Json)>, n: int) -> Seq<char>
    decreases n,
{
    if n <= 0 || n > fields.len() {
        Seq::empty()
    } else {
        proto_fields(indent, fields, n - 1) + proto_field(
            indent,
            &fields[n - 1].1,
            fields[n - 1].0@,
            n as nat,
        )
    }
}

/// What the first `n` members count during inference.
pub open spec fn proto_counts(fields: Seq<(String, Json)>, n: int) -> nat
    decreases n,
{
    if n <= 0 || n > fields.len() {
        0
    } else {
        proto_counts(fields, n - 1) + proto_count(&fields[n - 1].1)
    }
}

/// The message for the object `value` under the name `name`, followed by
/// the messages that its members need, each after an empty line. Nothing for
/// a value that is no object.
pub open spec fn proto_message(value: &Json, name: Seq<char>, levels: nat) -> Seq<char>
    decreases value, 1int, 0int,
{
    match value {
        Json::Object(fields) => indent_text(levels) + "message "@ + name + " {\n"@ + proto_fields(
            indent_text(levels),
            fields@,
            fields@.len() as int,
        ) + (indent_text(levels) + "}\n"@) + proto_nested_text(
            value,
            fields@.len() as int,
            levels,
        ),
        _ => Seq::empty(),
    }
}

/// The messages that the first `n` members of the object `value` need.
pub open spec fn proto_nested_text(value: &Json, n: int, levels: nat) -> Seq<char>
    decreases value, 0int, n,
{
    match value {
        Json::Object(fields) => if n <= 0 || n > fields@.len() {
            Seq::empty()
        } else {
            proto_nested_text(value, n - 1, levels) + proto_member_message(
                &fields@[n - 1].1,
                fields@[n - 1].0@,
                levels,
            )
        },
        _ => Seq::empty(),
    }
}

/// The message that the member `field` needs, behind an empty line: that of
/// the object, or that of the first element of an array of objects.
pub open spec fn proto_member_message(value: &Json, field: Seq<char>, levels: nat) -> Seq<char>
    decreases value, 2int, 0int,
{
    match value {
        Json::Array(items) => if items@.len() > 0 && items@[0] is Object {
            "\n"@ + proto_message(&items@[0], pascal_case(field), levels)
        } else {
            Seq::empty()
        },
        Json::Object(_) => "\n"@ + proto_message(value, pascal_case(field), levels),
        _ => Seq::empty(),
    }
}

/// How many message types generating the message of `value` counts.
pub open spec fn proto_total(value: &Json) -> nat
    decreases value, 1int, 0int,
{
    match value {
        Json::Object(fields) => proto_counts(fields@, fields@.len() as int) + proto_nested_totals(
            value,
            fields@.len() as int,
        ),
        _ => 0,
    }
}

/// What the messages of the first `n` members count.
pub open spec fn proto_nested_totals(value: &Json, n: int) -> nat
    decreases value, 0int, n,
{
    match value {
        Json::Object(fields) => if n <= 0 || n > fields@.len() {
            0
        } else {
            proto_nested_totals(value, n - 1) + proto_member_total(&fields@[n - 1].1)
        },
        _ => 0,
    }
}

/// What the message of one member counts.
pub open spec fn proto_member_total(value: &Json) -> nat
    decreases value, 2int, 0int,
{
    match value {
        Json::Array(items) => if items@.len() > 0 && items@[0] is Object {
            proto_total(&items@[0])
        } else {
            0
        },
        Json::Object(_) => proto_total(value),
        _ => 0,
    }
}

/// The member as a list of one entry, where it needs a message, or none.
pub open spec fn proto_entry(value: &Json, field: Seq<char>) -> Seq<(Seq<char>, Json)> {
    match proto_nested(value, field) {
        None => Seq::empty(),
        Some(name) => seq![(name, *value)],
    }
}

/// The members among the first `n` that need a message, in their order, each
/// with the name of its message.
pub open spec fn proto_nested_list(fields: Seq<(String, Json)>, n: int) -> Seq<(Seq<char>, Json)>
    decreases n,
{
    if n <= 0 || n > fields.len() {
        Seq::empty()
    } else {
        proto_nested_list(fields, n - 1) + proto_entry(&fields[n - 1].1, fields[n - 1].0@)
    }
}

/// The message of one entry behind an empty line: that of the object, or
/// that of the first element of an array of objects.
pub open spec fn entry_text(name: Seq<char>, value: &Json, levels: nat) -> Seq<char> {
    "\n"@ + match value {
        Json::Array(items) => if items@.len() > 0 && items@[0] is Object {
            proto_message(&items@[0], name, levels)
        } else {
            Seq::empty()
        },
        Json::Object(_) => proto_message(value, name, levels),
        _ => Seq::empty(),
    }
}

/// The messages of the first `k` entries of `list`.
pub open spec fn entries_text(list: Seq<(Seq<char>, Json)>, k: int, levels: nat) -> Seq<char>
    decreases k,
{
    if k <= 0 || k > list.len() {
        Seq::empty()
    } else {
        entries_text(list, k - 1, levels) + entry_text(list[k - 1].0, &list[k - 1].1, levels)
    }
}

/// What the messages of the first `k` entries of `list` count.
pub open spec fn entries_total(list: Seq<(Seq<char>, Json)>, k: int) -> nat
    decreases k,
{
    if k <= 0 || k > list.len() {
        0
    } else {
        entries_total(list, k - 1) + proto_member_total(&list[k - 1].1)
    }
}

proof fn lemma_entries_prefix(
    a: Seq<(Seq<char>, Json)>,
    b: Seq<(Seq<char>, Json)>,
    k: int,
    levels: nat,
)
    requires
        0 <= k <= a.len(),
    ensures
        entries_text(a + b, k, levels) == entries_text(a, k, levels),
        entries_total(a + b, k) == entries_total(a, k),
    decreases k,
{
    if k > 0 {
        lemma_entries_prefix(a, b, k - 1, levels);
        assert((a + b)[k - 1] == a[k - 1]);
    }
}

proof fn lemma_entries_joined(a: Seq<(Seq<char>, Json)>, b: Seq<(Seq<char>, Json)>, levels: nat)
    requires
        b.len() <= 1,
    ensures
        entries_text(a + b, (a + b).len() as int, levels) == entries_text(
            a,
            a.len() as int,
            levels,
        ) + entries_text(b, b.len() as int, levels),
        entries_total(a + b, (a + b).len() as int) == entries_total(a, a.len() as int)
            + entries_total(b, b.len() as int),
{
    if b.len() == 0 {
        assert(a + b =~= a);
        assert(entries_text(a, a.len() as int, levels) + Seq::<char>::empty() =~= entries_text(
            a,
            a.len() as int,
            levels,
        ));
    } else {
        let joined = a + b;
        lemma_entries_prefix(a, b, a.len() as int, levels);
        assert(joined[joined.len() - 1] == b[0]);
        assert(entries_text(b, 0, levels) =~= Seq::<char>::empty());
        assert(entries_text(b, 1, levels) =~= entry_text(b[0].0, &b[0].1, levels));
        assert(entries_total(b, 1) == entries_total(b, 0) + proto_member_total(&b[0].1));
    }
}

/// What a member needs is the message of its entry.
proof fn lemma_member_entry(value: &Json, field: Seq<char>, levels: nat)
    ensures
        proto_member_message(value, field, levels) == entries_text(
            proto_entry(value, field),
            proto_entry(value, field).len() as int,
            levels,
        ),
        proto_member_total(value) == entries_total(
            proto_entry(value, field),
            proto_entry(value, field).len() as int,
        ),
{
    let entry = proto_entry(value, field);
    if entry.len() == 1 {
        assert(entry[0] == (pascal_case(field), *value));
        assert(entries_text(entry, 0, levels) =~= Seq::<char>::empty());
        assert(entries_text(entry, 1, levels) =~= entry_text(entry[0].0, &entry[0].1, levels));
        assert(entries_total(entry, 1) == entries_total(entry, 0) + proto_member_total(
            &entry[0].1,
        ));
    }
}

/// The messages that the members need are those of the nested list.
proof fn lemma_proto_nested(value: &Json, n: int, levels: nat)
    requires
        value is Object,
        0 <= n <= value->Object_0@.len(),
    ensures
        proto_nested_text(value, n, levels) == entries_text(
            proto_nested_list(value->Object_0@, n),
            proto_nested_list(value->Object_0@, n).len() as int,
            levels,
        ),
        proto_nested_totals(value, n) == entries_total(
            proto_nested_list(value->Object_0@, n),
            proto_nested_list(value->Object_0@, n).len() as int,
        ),
    decreases n,
{
    let fields = value->Object_0@;
    if n > 0 {
        lemma_proto_nested(value, n - 1, levels);
        let v = &fields[n - 1].1;
        let key = fields[n - 1].0@;
        lemma_member_entry(v, key, levels);
        lemma_entries_joined(proto_nested_list(fields, n - 1), proto_entry(v, key), levels);
    }
}

/// Every entry of the nested list is a member of `value`.
proof fn lemma_proto_list_inside(value: &Json, n: int, j: int)
    requires
        value is Object,
        0 <= n <= value->Object_0@.len(),
        0 <= j < proto_nested_list(value->Object_0@, n).len(),
    ensures
        decreases_to!(value => proto_nested_list(value->Object_0@, n)[j].1),
    decreases n,
{
    let fields = value->Object_0@;
    if n > 0 {
        let shorter = proto_nested_list(fields, n - 1);
        if j < shorter.len() {
            lemma_proto_list_inside(value, n - 1, j);
        }
    }
}

/// Appends the line that declares one field.
fn push_proto_field(
    output: &mut String,
    indent: &str,
    value: &Json,
    key: &str,
    field_type: &str,
    number: u64,
)
    requires
        field_type@ == proto_type(value, key@),
    ensures
        final(output)@ == old(output)@ + proto_field(indent@, value, key@, number as nat),
{
    let field_name: String = to_snake_case(key);
    output.append(indent);
    output.append("  ");
    output.append(field_type);
    output.append(" ");
    output.append(field_name.as_str());
    output.append(" = ");
    push_decimal(output, number);
    output.append(";\n");
    assert(output@ =~= old(output)@ + proto_field(indent@, value, key@, number as nat));
}

/// Appends the message for the object `value` to `output`, and behind it the
/// messages that its members need. Appends nothing for a value that is no
/// object. `counter` counts the message types met on the way.
pub fn generate_proto_message(
    value: &Json,
    message_name: &str,
    output: &mut String,
    counter: &mut i32,
    indent: usize,
)
    ensures
        final(output)@ == old(output)@ + proto_message(value, message_name@, indent as nat),
        *final(counter) == bumped(*old(counter) as int, proto_total(value)),
    decreases value,
{
    let indent_str: String = indent_of(indent);
    let ghost levels = indent as nat;
    let map: &Vec<(String, Json)> = match value {
        Json::Object(map) => map,
        _ => {
            assert(old(output)@ + Seq::<char>::empty() =~= old(output)@);
            return ;
        },
    };
    output.append(indent_str.as_str());
    output.append("message ");
    output.append(message_name);
    output.append(" {\n");
    let ghost head = old(output)@ + (indent_text(levels) + "message "@ + message_name@ + " {\n"@);
    assert(output@ =~= head);
    let mut nested_messages: Vec<(String, &Json)> = Vec::new();
    let count: usize = map.len();
    let mut i: usize = 0;
    while i < count
        invariant
            i <= count,
            count == map@.len(),
            indent_str@ == indent_text(levels),
            output@ == head + proto_fields(indent_text(levels), map@, i as int),
            *counter == bumped(*old(counter) as int, proto_counts(map@, i as int)),
            lists(nested_messages@, proto_nested_list(map@, i as int)),
        decreases count - i,
    {
        let key: &str = map[i].0.as_str();
        let val: &Json = &map[i].1;
        let (field_type, nested_msg) = infer_proto_type(val, key, counter);
        push_proto_field(output, indent_str.as_str(), val, key, field_type.as_str(), i as u64 + 1);
        let ghost before = nested_messages@;
        let ghost model = proto_nested_list(map@, i as int);
        match nested_msg {
            Some(msg) => {
                nested_messages.push((msg, val));
                assert(lists(nested_messages@, model + proto_entry(val, key@))) by {
                    let longer = model + proto_entry(val, key@);
                    assert forall|j: int| 0 <= j < nested_messages@.len() implies (
                    #[trigger] nested_messages@[j]).0@ == longer[j].0 && *nested_messages@[j].1
                        == longer[j].1 by {
                        if j < before.len() {
                            assert(nested_messages@[j] == before[j]);
                        }
                    }
                }
            },
            None => {
                assert(model + proto_entry(val, key@) =~= model);
            },
        }
        i = i + 1;
        assert(output@ =~= head + proto_fields(indent_text(levels), map@, i as int));
    }
    output.append(indent_str.as_str());
    output.append("}\n");
    let ghost start = head + proto_fields(indent_text(levels), map@, count as int) + (indent_text(
        levels,
    ) + "}\n"@);
    assert(output@ =~= start);
    let ghost model = proto_nested_list(map@, count as int);
    let ghost counted = proto_counts(map@, count as int);
    let mut j: usize = 0;
    while j < nested_messages.len()
        invariant
            j <= nested_messages@.len(),
            value is Object,
            map@ == value->Object_0@,
            count == map@.len(),
            levels == indent,
            model == proto_nested_list(map@, count as int),
            lists(nested_messages@, model),
            output@ == start + entries_text(model, j as int, levels),
            *counter == bumped(*old(counter) as int, counted + entries_total(model, j as int)),
        decreases nested_messages@.len() - j,
    {
        let msg_value: &Json = nested_messages[j].1;
        let msg_name: &str = nested_messages[j].0.as_str();
        proof {
            lemma_proto_list_inside(value, count as int, j as int);
        }
        let ghost so_far = output@;
        output.push('\n');
        match msg_value {
            Json::Object(_) => {
                generate_proto_message(msg_value, msg_name, output, counter, indent);
            },
            Json::Array(arr) => {
                if arr.len() > 0 {
                    let first: &Json = &arr[0];
                    match first {
                        Json::Object(_) => {
                            generate_proto_message(first, msg_name, output, counter, indent);
                        },
                        _ => {},
                    }
                }
            },
            _ => {},
        }
        j = j + 1;
        proof {
            reveal_strlit("\n");
            assert("\n"@ =~= seq!['\n']);
            assert(output@ =~= so_far + entry_text(model[j - 1].0, &model[j - 1].1, levels));
            assert(output@ =~= start + entries_text(model, j as int, levels));
        }
    }
    proof {
        lemma_proto_nested(value, count as int, levels);
        assert(output@ =~= old(output)@ + proto_message(value, message_name@, levels));
    }
}

/// The first line of every schema.
pub const PROTO_HEADER: &'static str = "syntax = \"proto3\";\n\n";

/// How generating a schema from the JSON text `input` ends.
pub open spec fn json_to_proto_outcome(input: Seq<char>) -> TextOutcome {
    if blank(input) {
        TextOutcome::Refused("Input is empty"@)
    } else {
        match json_parsing(input) {
            Err(why) => TextOutcome::Refused("Invalid JSON: "@ + why),
            Ok(value) => schema_outcome(&value),
        }
    }
}

/// How generating a schema for a parsed document ends: an object gives the
/// message `Root`; an array stands for its first element, which has to be an
/// object.
pub open spec fn schema_outcome(value: &Json) -> TextOutcome {
    match value {
        Json::Object(_) => TextOutcome::Done(PROTO_HEADER@ + proto_message(value, "Root"@, 0)),
        Json::Array(items) => if items@.len() == 0 {
            TextOutcome::Refused("Cannot generate proto schema from empty array"@)
        } else if items@[0] is Object {
            TextOutcome::Done(PROTO_HEADER@ + proto_message(&items@[0], "Root"@, 0))
        } else {
            TextOutcome::Refused("Array must contain objects to generate proto schema"@)
        },
        _ => TextOutcome::Refused("Input must be a JSON object or array of objects"@),
    }
}

/// Generates the proto3 schema for a parsed document.
pub fn schema_of(parsed: &Json) -> (result: Result<String, String>)
    ensures
        tells(result, schema_outcome(parsed)),
{
    let mut proto: String = String::from_str(PROTO_HEADER);
    let mut message_counter: i32 = 0;
    match parsed {
        Json::Object(_) => {
            generate_proto_message(parsed, "Root", &mut proto, &mut message_counter, 0);
        },
        Json::Array(arr) => {
            if arr.len() > 0 {
                let first: &Json = &arr[0];
                match first {
                    Json::Object(_) => {
                        generate_proto_message(first, "Root", &mut proto, &mut message_counter, 0);
                    },
                    _ => {
                        return Err(
                            String::from_str("Array must contain objects to generate proto schema"),
                        );
                    },
                }
            } else {
                return Err(String::from_str("Cannot generate proto schema from empty array"));
            }
        },
        _ => {
            return Err(String::from_str("Input must be a JSON object or array of objects"));
        },
    }
    Ok(proto)
}

/// Converts a JSON document to a Protocol Buffers (proto3) schema.
pub fn json_to_proto(input: &str) -> (result: Result<String, String>)
    ensures
        tells(result, json_to_proto_outcome(input@)),
{
    if is_blank(input) {
        return Err(String::from_str("Input is empty"));
    }
    let parsed: Json = match parse_json(input) {
        Err(e) => {
            return Err(failure("Invalid JSON: ", e.as_str()));
        },
        Ok(value) => value,
    };
    schema_of(&parsed)
}

} // verus!
