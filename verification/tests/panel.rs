use devtools_core::formatter::{format_json, json_to_string, minify_json, string_to_json};
use devtools_core::panel::{copy_request, Conversion, Panel, StatusType};

fn shown(panel: &Panel) -> (&str, &str, &str, StatusType) {
    (
        panel.input_text.as_str(),
        panel.output_text.as_str(),
        panel.status_message.as_str(),
        panel.status_type,
    )
}

#[test]
fn panel_starts_empty_and_hidden() {
    let panel = Panel::new();
    assert_eq!(shown(&panel), ("", "", "", StatusType::Hidden));
    assert_eq!(panel.status_class(), "status-message hidden");
}

#[test]
fn panel_takes_input() {
    let mut panel = Panel::new();
    panel.set_status("s".to_string(), false);
    panel.set_input("{}".to_string());
    assert_eq!(shown(&panel), ("{}", "", "s", StatusType::Success));
}

#[test]
fn panel_converts_successfully() {
    let cases = [
        (Conversion::Minify, "{ \"a\" : 1 }", "{\"a\":1}", "✓ JSON minified successfully"),
        (Conversion::Format, "{\"a\":1}", "{\n  \"a\": 1\n}", "✓ JSON formatted successfully"),
        (
            Conversion::JsonToString,
            "{\"a\":1}",
            "\"{\\\"a\\\":1}\"",
            "✓ JSON converted to string successfully",
        ),
        (
            Conversion::StringToJson,
            "\"{\\\"a\\\":1}\"",
            "{\n  \"a\": 1\n}",
            "✓ String converted to JSON successfully",
        ),
    ];
    for (conversion, input, output, message) in cases {
        let mut panel = Panel::new();
        panel.set_input(input.to_string());
        panel.convert(conversion);
        assert_eq!(shown(&panel), (input, output, message, StatusType::Success));
        assert_eq!(panel.status_class(), "status-message success");
    }
}

#[test]
fn panel_shows_errors_and_drops_old_output() {
    let mut panel = Panel::new();
    panel.set_input("[1]".to_string());
    panel.convert(Conversion::Minify);
    assert_eq!(panel.output_text, "[1]");
    panel.set_input("   ".to_string());
    panel.convert(Conversion::Format);
    assert_eq!(shown(&panel), ("   ", "", "Error: Input is empty", StatusType::Error));
    assert_eq!(panel.status_class(), "status-message error");
    panel.set_input("{".to_string());
    panel.convert(Conversion::Minify);
    assert_eq!(panel.output_text, "");
    assert!(panel.status_message.starts_with("Error: Invalid JSON: "));
    assert_eq!(panel.status_type, StatusType::Error);
    panel.set_input("{}".to_string());
    panel.convert(Conversion::StringToJson);
    assert_eq!(
        panel.status_message,
        "Error: Input must be a JSON string literal (enclosed in double quotes with escaped content)"
    );
}

#[test]
fn panel_shows_the_very_error_of_the_conversion() {
    let cases: [(Conversion, fn(&str) -> Result<String, String>); 4] = [
        (Conversion::Minify, minify_json),
        (Conversion::Format, format_json),
        (Conversion::JsonToString, json_to_string),
        (Conversion::StringToJson, string_to_json),
    ];
    for (conversion, function) in cases {
        for input in ["{", "\"{\"", "[1,]", "", "\"x", "nul"] {
            let mut panel = Panel::new();
            panel.set_input(input.to_string());
            panel.set_status("old".to_string(), false);
            assert_eq!(panel.run(conversion), function(input));
            panel.convert(conversion);
            match function(input) {
                Ok(output) => {
                    assert_eq!(panel.output_text, output);
                    assert_eq!(panel.status_type, StatusType::Success);
                }
                Err(error) => assert_eq!(
                    shown(&panel),
                    (input, "", format!("Error: {error}").as_str(), StatusType::Error)
                ),
            }
        }
    }
    let mut panel = Panel::new();
    panel.set_input("{".to_string());
    panel.convert(Conversion::Minify);
    assert_eq!(
        panel.status_message,
        "Error: Invalid JSON: EOF while parsing an object at line 1 column 1"
    );
}

#[test]
fn panel_shows_a_given_result() {
    let mut panel = Panel::new();
    panel.set_input("in".to_string());
    panel.show_result(Conversion::Format, Ok("out".to_string()));
    assert_eq!(shown(&panel), ("in", "out", "✓ JSON formatted successfully", StatusType::Success));
    panel.show_result(Conversion::Format, Err("went wrong".to_string()));
    assert_eq!(shown(&panel), ("in", "", "Error: went wrong", StatusType::Error));
    panel.show_result(Conversion::StringToJson, Ok(String::new()));
    assert_eq!(
        shown(&panel),
        ("in", "", "✓ String converted to JSON successfully", StatusType::Success)
    );
}

#[test]
fn panel_clears() {
    let mut panel = Panel::new();
    panel.set_input("[1]".to_string());
    panel.convert(Conversion::Minify);
    panel.clear();
    assert_eq!(shown(&panel), ("", "", "", StatusType::Hidden));
}

#[test]
fn panel_reports_copies() {
    let mut panel = Panel::new();
    panel.set_input("x".to_string());
    panel.copy_finished(true);
    assert_eq!(shown(&panel), ("x", "", "✓ Copied to clipboard", StatusType::Success));
    panel.copy_finished(false);
    assert_eq!(
        shown(&panel),
        ("x", "", "Error: Failed to copy to clipboard", StatusType::Error)
    );
}

#[test]
fn status_is_set_as_error_or_success() {
    let mut panel = Panel::new();
    panel.set_status("bad".to_string(), true);
    assert_eq!(shown(&panel), ("", "", "bad", StatusType::Error));
    panel.set_status("good".to_string(), false);
    assert_eq!(shown(&panel), ("", "", "good", StatusType::Success));
}

#[test]
fn empty_text_is_not_copied() {
    assert_eq!(copy_request(""), None);
    assert_eq!(copy_request(" "), Some(" ".to_string()));
    assert_eq!(copy_request("{}"), Some("{}".to_string()));
}
