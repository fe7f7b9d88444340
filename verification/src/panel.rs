//! The state of the formatter panel: input, output and status line, and how
//! each event of the user interface changes them.

use vstd::prelude::*;
use vstd::string::StringExecFns;
use crate::formatter::{
    format_json, format_outcome, json_to_string, json_to_string_outcome, minify_json,
    minify_outcome, string_to_json, string_to_json_outcome,
};
use crate::text::{tells, TextOutcome};

verus! {

/// How the status line is shown.
#[derive(Clone, Copy, Debug, PartialEq, Eq, Structural)]
pub enum StatusType {
    Success,
    Error,
    Hidden,
}

/// A conversion that the panel offers.
#[derive(Clone, Copy, Debug, PartialEq, Eq, Structural)]
pub enum Conversion {
    Minify,
    Format,
    JsonToString,
    StringToJson,
}

/// What the panel shows.
#[derive(Debug)]
pub struct Panel {
    pub input_text: String,
    pub output_text: String,
    pub status_message: String,
    pub status_type: StatusType,
}

/// How a conversion of `input` ends.
pub open spec fn conversion_outcome(conversion: Conversion, input: Seq<char>) -> TextOutcome {
    match conversion {
        Conversion::Minify => minify_outcome(input),
        Conversion::Format => format_outcome(input),
        Conversion::JsonToString => json_to_string_outcome(input),
        Conversion::StringToJson => string_to_json_outcome(input),
    }
}

/// What the status line says after a conversion that succeeded.
pub open spec fn success_message(conversion: Conversion) -> Seq<char> {
    match conversion {
        Conversion::Minify => "✓ JSON minified successfully"@,
        Conversion::Format => "✓ JSON formatted successfully"@,
        Conversion::JsonToString => "✓ JSON converted to string successfully"@,
        Conversion::StringToJson => "✓ String converted to JSON successfully"@,
    }
}

/// The CSS classes of the status line.
pub open spec fn class_of(status: StatusType) -> Seq<char> {
    match status {
        StatusType::Success => "status-message success"@,
        StatusType::Error => "status-message error"@,
        StatusType::Hidden => "status-message hidden"@,
    }
}

/// What the panel shows once a conversion has given `result`: on success the
/// result and a success message; on failure no output and the error behind
/// `Error: `. The input stays.
pub open spec fn shows(
    before: &Panel,
    after: &Panel,
    conversion: Conversion,
    result: Result<String, String>,
) -> bool {
    &&& after.input_text@ == before.input_text@
    &&& match result {
        Ok(text) => {
            &&& after.output_text@ == text@
            &&& after.status_message@ == success_message(conversion)
            &&& after.status_type == StatusType::Success
        },
        Err(e) => {
            &&& after.output_text@.len() == 0
            &&& after.status_message@ == "Error: "@ + e@
            &&& after.status_type == StatusType::Error
        },
    }
}

/// What the panel shows after a conversion of its input: what it shows for
/// the result that the conversion gives for that input.
pub open spec fn converted(before: &Panel, after: &Panel, conversion: Conversion) -> bool {
    &&& after.input_text@ == before.input_text@
    &&& match conversion_outcome(conversion, before.input_text@) {
        TextOutcome::Done(text) => {
            &&& after.output_text@ == text
            &&& after.status_message@ == success_message(conversion)
            &&& after.status_type == StatusType::Success
        },
        TextOutcome::Refused(message) => {
            &&& after.output_text@.len() == 0
            &&& after.status_message@ == "Error: "@ + message
            &&& after.status_type == StatusType::Error
        },
    }
}

impl Panel {
    /// The panel at the start: nothing in it, the status line hidden.
    pub fn new() -> (panel: Panel)
        ensures
            panel.input_text@.len() == 0,
            panel.output_text@.len() == 0,
            panel.status_message@.len() == 0,
            panel.status_type == StatusType::Hidden,
    {
        Panel {
            input_text: String::new(),
            output_text: String::new(),
            status_message: String::new(),
            status_type: StatusType::Hidden,
        }
    }

    /// Shows a message on the status line, as an error or as a success.
    pub fn set_status(&mut self, message: String, is_error: bool)
        ensures
            final(self).status_message@ == message@,
            final(self).status_type == if is_error {
                StatusType::Error
            } else {
                StatusType::Success
            },
            final(self).input_text@ == old(self).input_text@,
            final(self).output_text@ == old(self).output_text@,
    {
        self.status_message = message;
        self.status_type = if is_error {
            StatusType::Error
        } else {
            StatusType::Success
        };
    }

    /// Takes over what the user typed.
    pub fn set_input(&mut self, text: String)
        ensures
            final(self).input_text@ == text@,
            final(self).output_text@ == old(self).output_text@,
            final(self).status_message@ == old(self).status_message@,
            final(self).status_type == old(self).status_type,
    {
        self.input_text = text;
    }

    /// Runs a conversion on the input.
    pub fn run(&self, conversion: Conversion) -> (result: Result<String, String>)
        ensures
            tells(result, conversion_outcome(conversion, self.input_text@)),
    {
        let input: &str = self.input_text.as_str();
        match conversion {
            Conversion::Minify => minify_json(input),
            Conversion::Format => format_json(input),
            Conversion::JsonToString => json_to_string(input),
            Conversion::StringToJson => string_to_json(input),
        }
    }

    /// Shows the result of a conversion: on success the result and a success
    /// message, on failure no output and the error behind `Error: `.
    pub fn show_result(&mut self, conversion: Conversion, result: Result<String, String>)
        ensures
            shows(old(self), final(self), conversion, result),
    {
        match result {
            Ok(text) => {
                self.output_text = text;
                let message: &str = match conversion {
                    Conversion::Minify => "✓ JSON minified successfully",
                    Conversion::Format => "✓ JSON formatted successfully",
                    Conversion::JsonToString => "✓ JSON converted to string successfully",
                    Conversion::StringToJson => "✓ String converted to JSON successfully",
                };
                self.set_status(String::from_str(message), false);
            },
            Err(e) => {
                self.output_text = String::new();
                self.set_status(String::from_str("Error: ").concat(e.as_str()), true);
            },
        }
    }

    /// Runs a conversion on the input and shows how it ended.
    pub fn convert(&mut self, conversion: Conversion)
        ensures
            converted(old(self), final(self), conversion),
    {
        let result: Result<String, String> = self.run(conversion);
        self.show_result(conversion, result);
    }

    /// Empties the panel and hides the status line.
    pub fn clear(&mut self)
        ensures
            final(self).input_text@.len() == 0,
            final(self).output_text@.len() == 0,
            final(self).status_message@.len() == 0,
            final(self).status_type == StatusType::Hidden,
    {
        self.input_text = String::new();
        self.output_text = String::new();
        self.status_message = String::new();
        self.status_type = StatusType::Hidden;
    }

    /// Shows how a copy to the clipboard ended.
    pub fn copy_finished(&mut self, copied: bool)
        ensures
            final(self).status_message@ == if copied {
                "✓ Copied to clipboard"@
            } else {
                "Error: Failed to copy to clipboard"@
            },
            final(self).status_type == if copied {
                StatusType::Success
            } else {
                StatusType::Error
            },
            final(self).input_text@ == old(self).input_text@,
            final(self).output_text@ == old(self).output_text@,
    {
        if copied {
            self.set_status(String::from_str("✓ Copied to clipboard"), false);
        } else {
            self.set_status(String::from_str("Error: Failed to copy to clipboard"), true);
        }
    }

    /// The CSS classes of the status line.
    pub fn status_class(&self) -> (class: &'static str)
        ensures
            class@ == class_of(self.status_type),
    {
        match self.status_type {
            StatusType::Success => "status-message success",
            StatusType::Error => "status-message error",
            StatusType::Hidden => "status-message hidden",
        }
    }
}

/// Decides what a copy button puts on the clipboard: the text, unless it is
/// empty, in which case nothing is to be done.
pub fn copy_request(text: &str) -> (request: Option<String>)
    ensures
        text@.len() == 0 ==> request is None,
        text@.len() > 0 ==> (request matches Some(t) && t@ == text@),
{
    if text.is_empty() {
        None
    } else {
        Some(String::from_str(text))
    }
}

} // verus!
