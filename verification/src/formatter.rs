//! Reformatting of JSON text: minify, pretty-print, and conversion between a
//! JSON document and the JSON string literal that holds it.

use vstd::prelude::*;
use vstd::string::StringExecFns;
use crate::json::{
    compact_text, json_parsing, json_string_parsing, parse_json, parse_json_string, pretty_text,
    print_compact, print_pretty, print_string_literal, string_literal, Json,
};
use crate::text::{blank, failure, is_blank, tells, TextOutcome};

verus! {

/// How minifying `input` ends.
pub open spec fn minify_outcome(input: Seq<char>) -> TextOutcome {
    if blank(input) {
        TextOutcome::Refused("Input is empty"@)
    } else {
        match json_parsing(input) {
            Err(why) => TextOutcome::Refused("Invalid JSON: "@ + why),
            Ok(value) => match compact_text(value) {
                Err(why) => TextOutcome::Refused("Failed to minify: "@ + why),
                Ok(text) => TextOutcome::Done(text),
            },
        }
    }
}

/// How pretty-printing `input` ends.
pub open spec fn format_outcome(input: Seq<char>) -> TextOutcome {
    if blank(input) {
        TextOutcome::Refused("Input is empty"@)
    } else {
        match json_parsing(input) {
            Err(why) => TextOutcome::Refused("Invalid JSON: "@ + why),
            Ok(value) => match pretty_text(value) {
                Err(why) => TextOutcome::Refused("Failed to format: "@ + why),
                Ok(text) => TextOutcome::Done(text),
            },
        }
    }
}

/// How turning the JSON document `input` into a string literal ends.
pub open spec fn json_to_string_outcome(input: Seq<char>) -> TextOutcome {
    if blank(input) {
        TextOutcome::Refused("Input is empty"@)
    } else {
        match json_parsing(input) {
            Err(why) => TextOutcome::Refused("Invalid JSON: "@ + why),
            Ok(_) => match string_literal(input) {
                Err(why) => TextOutcome::Refused("Failed to convert: "@ + why),
                Ok(text) => TextOutcome::Done(text),
            },
        }
    }
}

/// A text that starts and ends with a double quote; one quote alone is both.
pub open spec fn quoted(input: Seq<char>) -> bool {
    input.len() > 0 && input[0] == '"' && input[input.len() - 1] == '"'
}

/// How turning the string literal `input` back into a JSON document ends.
pub open spec fn string_to_json_outcome(input: Seq<char>) -> TextOutcome {
    if blank(input) {
        TextOutcome::Refused("Input is empty"@)
    } else if !quoted(input) {
        TextOutcome::Refused(
            "Input must be a JSON string literal (enclosed in double quotes with escaped content)"@,
        )
    } else {
        match json_string_parsing(input) {
            Err(why) => TextOutcome::Refused("Invalid JSON string literal: "@ + why),
            Ok(inner) => match json_parsing(inner) {
                Err(why) => TextOutcome::Refused("Unescaped content is not valid JSON: "@ + why),
                Ok(value) => match pretty_text(value) {
                    Err(why) => TextOutcome::Refused("Failed to format: "@ + why),
                    Ok(text) => TextOutcome::Done(text),
                },
            },
        }
    }
}

/// Minifies JSON: prints the document without any white space between its
/// tokens.
pub fn minify_json(input: &str) -> (result: Result<String, String>)
    ensures
        tells(result, minify_outcome(input@)),
{
    if is_blank(input) {
        return Err(String::from_str("Input is empty"));
    }
    let parsed: Json = match parse_json(input) {
        Err(e) => {
            return Err(failure("Invalid JSON: ", e.as_str()));
        },
        Ok(value) => value,
    };
    match print_compact(&parsed) {
        Err(e) => Err(failure("Failed to minify: ", e.as_str())),
        Ok(text) => Ok(text),
    }
}

/// Formats JSON: prints the document with line breaks and indentation.
pub fn format_json(input: &str) -> (result: Result<String, String>)
    ensures
        tells(result, format_outcome(input@)),
{
    if is_blank(input) {
        return Err(String::from_str("Input is empty"));
    }
    let parsed: Json = match parse_json(input) {
        Err(e) => {
            return Err(failure("Invalid JSON: ", e.as_str()));
        },
        Ok(value) => value,
    };
    match print_pretty(&parsed) {
        Err(e) => Err(failure("Failed to format: ", e.as_str())),
        Ok(text) => Ok(text),
    }
}

/// Converts a JSON document to the JSON string literal that holds its text,
/// quoted and escaped. The document has to be valid JSON.
pub fn json_to_string(input: &str) -> (result: Result<String, String>)
    ensures
        tells(result, json_to_string_outcome(input@)),
{
    if is_blank(input) {
        return Err(String::from_str("Input is empty"));
    }
    match parse_json(input) {
        Err(e) => {
            return Err(failure("Invalid JSON: ", e.as_str()));
        },
        Ok(_) => {},
    }
    match print_string_literal(input) {
        Err(e) => Err(failure("Failed to convert: ", e.as_str())),
        Ok(text) => Ok(text),
    }
}

/// Decides whether `input` starts and ends with a double quote.
pub fn is_quoted(input: &str) -> (q: bool)
    ensures
        q == quoted(input@),
{
    let len: usize = input.unicode_len();
    if len == 0 {
        return false;
    }
    input.get_char(0) == '"' && input.get_char(len - 1) == '"'
}

/// Converts a JSON string literal back to the document that it holds, and
/// prints that document with line breaks and indentation.
pub fn string_to_json(input: &str) -> (result: Result<String, String>)
    ensures
        tells(result, string_to_json_outcome(input@)),
{
    if is_blank(input) {
        return Err(String::from_str("Input is empty"));
    }
    if is_quoted(input) {
        let unescaped: String = match parse_json_string(input) {
            Err(e) => {
                return Err(
                    failure("Invalid JSON string literal: ", e.as_str()),
                );
            },
            Ok(text) => text,
        };
        let parsed: Json = match parse_json(unescaped.as_str()) {
            Err(e) => {
                return Err(
                    failure(
                        "Unescaped content is not valid JSON: ",
                        e.as_str(),
                    ),
                );
            },
            Ok(value) => value,
        };
        return match print_pretty(&parsed) {
            Err(e) => Err(failure("Failed to format: ", e.as_str())),
            Ok(text) => Ok(text),
        };
    }
    Err(
        String::from_str(
            "Input must be a JSON string literal (enclosed in double quotes with escaped content)",
        ),
    )
}

} // verus!
