use xcstrings_converter::converter::XCStringConverter;
use xcstrings_converter::models::{
    ConverterOptions, LocalizableICUMessage, LocalizableICUMessageValue, LocalizableICUString,
    LocalizableICUStrings, ParserConfig,
};
use xcstrings_converter::ordered_map::OrderedMap;
use xcstrings_converter::xcstrings::LocalizationState;

fn message(key: &str, locales: &[(&str, &str, &str)]) -> LocalizableICUMessage {
    let mut messages = OrderedMap::new();
    for (locale, value, state) in locales {
        messages.insert(
            locale.to_string(),
            LocalizableICUMessageValue { value: value.to_string(), state: state.to_string() },
        );
    }
    LocalizableICUMessage { key: key.to_string(), messages, comment: None }
}

fn converter(source_language: &str) -> XCStringConverter {
    XCStringConverter::new(
        source_language.to_string(),
        ConverterOptions::default(),
        ParserConfig::default(),
    )
}

#[test]
fn test_convert() {
    let mut messages = OrderedMap::new();
    messages.insert(
        "ja".to_string(),
        LocalizableICUMessageValue {
            value: "こんにちは {your_name}、私は {my_name} です。".to_string(),
            state: "translated".to_string(),
        },
    );
    messages.insert(
        "en".to_string(),
        LocalizableICUMessageValue {
            value: "Hello {your_name}, I'm {my_name}.".to_string(),
            state: "needs_review".to_string(),
        },
    );
    messages.insert(
        "ko".to_string(),
        LocalizableICUMessageValue {
            value: "안녕하세요 {your_name}, 저는 {my_name} 입니다.".to_string(),
            state: "translated".to_string(),
        },
    );
    let message = LocalizableICUMessage {
        key: "hello".to_string(),
        messages,
        comment: Some(
            "A greeting message with both the user's name and speaker's name".to_string(),
        ),
    };
    let converter = converter("ja");
    let xcstrings = converter.convert(vec![message]).unwrap();
    let xcstring = xcstrings.strings.get("hello").unwrap();
    assert_eq!(xcstring.localizations.len(), 3);
    assert_eq!(
        xcstring.localizations.get("ja").unwrap().string_unit.value,
        "こんにちは %1$@、私は %2$@ です。"
    );
    assert_eq!(
        xcstring.localizations.get("en").unwrap().string_unit.value,
        "Hello %1$@, I'm %2$@."
    );
    assert_eq!(
        xcstring.localizations.get("ko").unwrap().string_unit.value,
        "안녕하세요 %1$@, 저는 %2$@ 입니다."
    );
    assert_eq!(
        xcstring.localizations.get("ja").unwrap().string_unit.localization_state,
        LocalizationState::Translated
    );
    assert_eq!(
        xcstring.localizations.get("en").unwrap().string_unit.localization_state,
        LocalizationState::NeedsReview
    );
    assert_eq!(
        xcstring.localizations.get("ko").unwrap().string_unit.localization_state,
        LocalizationState::Translated
    );
}

#[test]
fn test_variable_count_mismatch() {
    let message = message(
        "inconsistent_test",
        &[
            ("en", "Hello {name} and {age}!", "translated"),
            ("ja", "こんにちは {name} さん！", "translated"),
        ],
    );
    let converter = converter("en");
    let result = converter.convert(vec![message]);
    assert!(result.is_err());
    let error_message = result.unwrap_err().message();
    assert!(error_message.contains("Variable count mismatch"));
    assert!(error_message.contains("inconsistent_test"));
}

#[test]
fn test_variable_name_mismatch() {
    let message = message(
        "wrong_variable_names",
        &[
            ("en", "Hello {firstName}!", "translated"),
            ("ja", "こんにちは {lastName} さん！", "translated"),
        ],
    );
    let converter = converter("en");
    let result = converter.convert(vec![message]);
    assert!(result.is_err());
    let error_message = result.unwrap_err().message();
    assert!(error_message.contains("Variable name mismatch"));
    assert!(error_message.contains("lastName"));
    assert!(error_message.contains("firstName"));
}

#[test]
fn test_select_error_case() {
    let message = message(
        "user_status",
        &[("en", "{gender, select, male {He} female {She} other {They}} is online.", "translated")],
    );
    let mut options = ConverterOptions::default();
    options.split_select_elements = false;
    let converter = XCStringConverter::new(
        "en".to_string(),
        options,
        ParserConfig::default(),
    );
    let result = converter.convert(vec![message]);
    assert!(result.is_err());
    let error_message = result.unwrap_err().message();
    assert!(error_message.contains("Select elements are not supported"));
    assert!(error_message.contains("user_status"));
}

// Scenario: a select message splits into one key per case label, each
// locale's select replaced by that case's content.
#[test]
fn test_select_splitting_enabled() {
    let message = message(
        "user_status",
        &[("en", "{gender, select, male {He} female {She} other {They}} is online.", "translated")],
    );
    let converter = converter("en");
    let xcstrings = converter.convert(vec![message]).unwrap();
    assert_eq!(xcstrings.strings.len(), 3);
    assert!(xcstrings.strings.get("user_status").is_none());
    let male = xcstrings.strings.get("user_status_male").unwrap();
    assert_eq!(male.localizations.get("en").unwrap().string_unit.value, "He is online.");
    let female = xcstrings.strings.get("user_status_female").unwrap();
    assert_eq!(female.localizations.get("en").unwrap().string_unit.value, "She is online.");
    let other = xcstrings.strings.get("user_status_other").unwrap();
    assert_eq!(other.localizations.get("en").unwrap().string_unit.value, "They is online.");
}

// Scenario: a variable-set deviation names both the key and the
// deviating locale.
#[test]
fn test_mismatch_names_key_and_locale() {
    let message = message(
        "greeting",
        &[
            ("en", "Hello {name} and {age}!", "translated"),
            ("ja", "こんにちは {name} さん！", "translated"),
        ],
    );
    let converter = converter("en");
    let result = converter.convert(vec![message]);
    assert!(result.is_err());
    let error_message = result.unwrap_err().message();
    assert!(error_message.contains("greeting"));
    assert!(error_message.contains("ja"));
}

#[test]
fn test_document_shape_and_version() {
    let message = message("hi", &[("en", "Hi", "translated")]);
    let converter = converter("en");
    let xcstrings = converter.convert(vec![message]).unwrap();
    assert_eq!(xcstrings.source_language, "en");
    assert_eq!(xcstrings.version, "1.0");
    assert_eq!(xcstrings.strings.len(), 1);
}

// The parallel entry point yields the same document as the sequential
// one.
#[test]
fn test_parallel_matches_sequential() {
    let batch = || {
        vec![
            message("a", &[("en", "Hello {name}!", "translated"), ("de", "Hallo {name}!", "translated")]),
            message("b", &[("en", "Bye", "needs_review")]),
            message(
                "c",
                &[("en", "{n, plural, one {{n} item} other {{n} items}}", "translated")],
            ),
        ]
    };
    let converter = converter("en");
    let sequential = converter.convert(batch()).unwrap();
    let parallel = converter.convert_parallel(batch()).unwrap();
    assert_eq!(sequential.strings.len(), parallel.strings.len());
    for key in ["a", "b", "c"] {
        let s = sequential.strings.get(key).unwrap();
        let p = parallel.strings.get(key).unwrap();
        assert_eq!(s.localizations.len(), p.localizations.len());
        for i in 0..s.localizations.len() {
            let sl = s.localizations.value_at(i);
            let pl = p.localizations.value_at(i);
            assert_eq!(sl.string_unit.value, pl.string_unit.value);
        }
    }
}

// The parallel path fails on the first failing message, like the
// sequential one.
#[test]
fn test_parallel_fail_fast() {
    let batch = vec![
        message("fine", &[("en", "Hello", "translated")]),
        message("broken", &[("en", "Hello {unclosed", "translated")]),
    ];
    let converter = converter("en");
    let result = converter.convert_parallel(batch);
    assert!(result.is_err());
    assert!(result.unwrap_err().message().contains("Failed to parse message"));
}

#[test]
fn test_number_and_date_references() {
    let message = message(
        "typed",
        &[("en", "{count, number} files on {when, date}", "translated")],
    );
    let converter = converter("en");
    let xcstrings = converter.convert(vec![message]).unwrap();
    let value = &xcstrings.strings.get("typed").unwrap().localizations.get("en").unwrap().string_unit.value;
    assert_eq!(value, "%1$lld files on %2$@");
}

// The formatted value is trimmed.
#[test]
fn test_value_is_trimmed() {
    let message = message("padded", &[("en", "  Hello {name}  ", "translated")]);
    let converter = converter("en");
    let xcstrings = converter.convert(vec![message]).unwrap();
    let value = &xcstrings.strings.get("padded").unwrap().localizations.get("en").unwrap().string_unit.value;
    assert_eq!(value, "Hello %1$@");
}

// An input batch converts message by message through the plain `From`
// conversion.
#[test]
fn test_batch_from_input_strings() {
    let mut messages = OrderedMap::new();
    messages.insert(
        "en".to_string(),
        LocalizableICUMessageValue { value: "Hi {name}".to_string(), state: "translated".to_string() },
    );
    let batch = LocalizableICUStrings {
        strings: vec![LocalizableICUString {
            key: "hi".to_string(),
            messages,
            comment: None,
        }],
    };
    let messages: Vec<LocalizableICUMessage> =
        batch.strings.into_iter().map(LocalizableICUMessage::from).collect();
    assert_eq!(messages.len(), 1);
    assert_eq!(messages[0].key, "hi");
    let converter = converter("en");
    let xcstrings = converter.convert(messages).unwrap();
    assert_eq!(
        xcstrings.strings.get("hi").unwrap().localizations.get("en").unwrap().string_unit.value,
        "Hi %1$@"
    );
}
