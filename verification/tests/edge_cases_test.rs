use xcstrings_converter::converter::XCStringConverter;
use xcstrings_converter::models::{
    ConverterOptions, LocalizableICUMessage, LocalizableICUMessageValue, ParserConfig,
};
use xcstrings_converter::ordered_map::OrderedMap;
use xcstrings_converter::xcstrings::LocalizationState;

fn single_locale_message(key: &str, value: &str, state: &str) -> LocalizableICUMessage {
    let mut messages = OrderedMap::new();
    messages.insert(
        "en".to_string(),
        LocalizableICUMessageValue { value: value.to_string(), state: state.to_string() },
    );
    LocalizableICUMessage { key: key.to_string(), messages, comment: None }
}

fn default_converter() -> XCStringConverter {
    XCStringConverter::new(
        "en".to_string(),
        ConverterOptions::default(),
        ParserConfig::default(),
    )
}

#[test]
fn test_empty_strings_array() {
    let converter = default_converter();
    let result = converter.convert(vec![]);
    assert!(result.is_ok());
    let xcstrings = result.unwrap();
    assert_eq!(xcstrings.strings.len(), 0);
}

#[test]
fn test_empty_string_values() {
    let message = single_locale_message("empty_value", "", "translated");
    let converter = default_converter();
    let result = converter.convert(vec![message]);
    assert!(result.is_ok());
    let xcstrings = result.unwrap();
    assert_eq!(xcstrings.strings.len(), 1);
    assert_eq!(
        xcstrings.strings.get("empty_value").unwrap().localizations.get("en").unwrap().string_unit.value,
        ""
    );
}

#[test]
fn test_empty_messages_map() {
    let message = LocalizableICUMessage {
        key: "no_messages".to_string(),
        messages: OrderedMap::new(),
        comment: None,
    };
    let converter = default_converter();
    let result = converter.convert(vec![message]);
    assert!(result.is_ok());
    let xcstrings = result.unwrap();
    assert_eq!(xcstrings.strings.len(), 1);
    assert_eq!(xcstrings.strings.get("no_messages").unwrap().localizations.len(), 0);
}

#[test]
fn test_very_long_strings() {
    let very_long_string = "a".repeat(10000);
    let message = single_locale_message(
        "long_string",
        &format!("Hello {{name}}, {}", very_long_string),
        "translated",
    );
    let converter = default_converter();
    let result = converter.convert(vec![message]);
    assert!(result.is_ok());
}

#[test]
fn test_invalid_icu_format() {
    let message = single_locale_message("invalid_format", "Hello {unclosed_bracket", "translated");
    let converter = default_converter();
    let result = converter.convert(vec![message]);
    assert!(result.is_err());
    assert!(result.unwrap_err().message().contains("Failed to parse message"));
}

#[test]
fn test_many_variables() {
    let mut variable_parts = Vec::new();
    for i in 0..100 {
        variable_parts.push(format!("{{var{}}}", i));
    }
    let message_value = variable_parts.join(" and ");
    let message = single_locale_message("many_vars", &message_value, "translated");
    let converter = default_converter();
    let result = converter.convert(vec![message]);
    assert!(result.is_ok());
}

#[test]
fn test_special_characters_escaped() {
    let message = single_locale_message(
        "special_chars_escaped",
        "Hello {name}! 🎉 Special chars: @#$%^&*()[]'{'}'|\\\"''<>?/~`",
        "translated",
    );
    let converter = default_converter();
    let result = converter.convert(vec![message]);
    assert!(result.is_ok(), "Properly escaped special characters should work");
}

#[test]
fn test_special_characters_unescaped() {
    let message = single_locale_message(
        "special_chars_unescaped",
        "Hello {name}! 🎉 Special chars: @#$%^&*()[]{}|\\\"'<>?/~`",
        "translated",
    );
    let converter = default_converter();
    let result = converter.convert(vec![message]);
    assert!(result.is_err(), "Unescaped curly braces should cause an error");
    let error_message = result.unwrap_err().message();
    assert!(error_message.contains("EmptyArgument") || error_message.contains("Failed to parse"));
}

#[test]
fn test_unicode_key_names() {
    let message = single_locale_message("キー_🔑_ключ", "Hello world", "translated");
    let converter = default_converter();
    let result = converter.convert(vec![message]);
    assert!(result.is_ok());
}

#[test]
fn test_duplicate_keys() {
    let message1 = single_locale_message("duplicate", "First value", "translated");
    let message2 = single_locale_message("duplicate", "Second value", "translated");
    let converter = default_converter();
    let result = converter.convert(vec![message1, message2]);
    assert!(result.is_ok());
    let xcstrings = result.unwrap();
    assert_eq!(
        xcstrings.strings.get("duplicate").unwrap().localizations.get("en").unwrap().string_unit.value,
        "Second value"
    );
}

#[test]
fn test_invalid_localization_state() {
    let message = single_locale_message("invalid_state_key", "Hello world", "invalid_state");
    let converter = default_converter();
    let result = converter.convert(vec![message]);
    assert!(result.is_ok());
    let xcstrings = result.unwrap();
    assert_eq!(
        xcstrings.strings.get("invalid_state_key").unwrap().localizations.get("en").unwrap().string_unit.localization_state,
        LocalizationState::Translated
    );
}

#[test]
fn test_select_without_other_case() {
    let message = single_locale_message(
        "no_other_case",
        "{gender, select, male {He} female {She}}",
        "translated",
    );
    let converter = default_converter();
    let result = converter.convert(vec![message]);
    if result.is_err() {
        println!("Select without other case error: {}", result.unwrap_err().message());
    } else {
        println!("Select without other case succeeded unexpectedly");
    }
}

#[test]
fn test_empty_select_options() {
    let message = single_locale_message("empty_select", "Status: {status, select}", "translated");
    let converter = default_converter();
    let result = converter.convert(vec![message]);
    if result.is_err() {
        println!("Empty select options error: {}", result.unwrap_err().message());
    } else {
        println!("Empty select options succeeded unexpectedly");
    }
}

#[test]
fn test_deeply_nested_elements() {
    let message = single_locale_message(
        "deeply_nested",
        "{count, plural, one {{gender, select, male {He has one item} female {She has one item} other {They have one item}}} other {{gender, select, male {He has # items} female {She has # items} other {They have # items}}}}",
        "translated",
    );
    let converter = default_converter();
    let result = converter.convert(vec![message]);
    if result.is_err() {
        println!("Deeply nested error: {}", result.unwrap_err().message());
    } else {
        println!("Deeply nested succeeded");
    }
}

#[test]
fn test_empty_variable_name() {
    let message = single_locale_message("empty_var_name", "Hello {}!", "translated");
    let converter = default_converter();
    let result = converter.convert(vec![message]);
    if result.is_err() {
        println!("Empty variable name error: {}", result.unwrap_err().message());
    } else {
        println!("Empty variable name succeeded");
    }
}

#[test]
fn test_position_overflow() {
    let mut variable_parts = Vec::new();
    for i in 0..1000 {
        variable_parts.push(format!("{{var{}}}", i));
    }
    let message_value = variable_parts.join(" ");
    let message = single_locale_message("overflow_test", &message_value, "translated");
    let converter = default_converter();
    let result = converter.convert(vec![message]);
    assert!(result.is_ok());
}

#[test]
fn test_html_xml_tags_not_supported() {
    let message = LocalizableICUMessage {
        key: "html_tag_test".to_string(),
        messages: {
            let mut m = OrderedMap::new();
            m.insert(
                "en".to_string(),
                LocalizableICUMessageValue {
                    value: "For health insurance cards only: Please hide <symbol and number> and <insurer number> before submitting.".to_string(),
                    state: "translated".to_string(),
                },
            );
            m
        },
        comment: Some(
            "Test case with angle brackets that should be treated as literal text".to_string(),
        ),
    };
    let parser_config = ParserConfig::new(true, false);
    let converter = XCStringConverter::new(
        "en".to_string(),
        ConverterOptions::default(),
        parser_config,
    );
    let result = converter.convert_parallel(vec![message]);
    assert!(result.is_ok());
    if let Ok(xcstrings) = result {
        let localization = xcstrings.strings.get("html_tag_test").unwrap();
        let en_value = &localization.localizations.get("en").unwrap().string_unit.value;
        assert!(en_value.contains("<symbol and number>"));
        assert!(en_value.contains("<insurer number>"));
        assert!(en_value.contains("symbol and number"));
        assert!(en_value.contains("insurer number"));
    }
}

#[test]
fn test_common_html_tags_preserved_as_text() {
    let test_cases = vec![
        ("bold_tag", "This is <b>bold</b> text."),
        ("italic_tag", "This is <i>italic</i> text."),
        ("link_tag", "Click <a href=\"https://example.com\">here</a> for info."),
        ("div_tag", "Content in <div class=\"highlight\">container</div>."),
        ("span_tag", "Highlighted <span style=\"color:red\">text</span> here."),
    ];
    for (key, value) in test_cases {
        let message = LocalizableICUMessage {
            key: key.to_string(),
            messages: {
                let mut m = OrderedMap::new();
                m.insert(
                    "en".to_string(),
                    LocalizableICUMessageValue {
                        value: value.to_string(),
                        state: "translated".to_string(),
                    },
                );
                m
            },
            comment: Some(
                "Test case with HTML tags that should be preserved as literal text".to_string(),
            ),
        };
        let parser_config = ParserConfig::new(true, false);
        let converter = XCStringConverter::new(
            "en".to_string(),
            ConverterOptions::default(),
            parser_config,
        );
        let result = converter.convert_parallel(vec![message]);
        assert!(result.is_ok(), "Failed to process HTML tag test case: {}", key);
        if let Ok(xcstrings) = result {
            let localization = xcstrings.strings.get(key).unwrap();
            let en_value = &localization.localizations.get("en").unwrap().string_unit.value;
            assert_eq!(en_value, value, "HTML tags were not preserved as literal text for case: {}", key);
        }
    }
}
