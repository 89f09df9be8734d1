use xcstrings_converter::converter::substitution_builder::KeyFormat;
use xcstrings_converter::converter::XCStringConverter;
use xcstrings_converter::models::{
    default_localization_state, ConverterOptions, LocalizableICUMessage,
    LocalizableICUMessageValue, ParserConfig,
};
use xcstrings_converter::ordered_map::OrderedMap;
use xcstrings_converter::xcstrings::{LocalizationState, Substitution, VariationType};

fn single_locale_message(key: &str, value: &str) -> LocalizableICUMessage {
    let mut messages = OrderedMap::new();
    messages.insert(
        "en".to_string(),
        LocalizableICUMessageValue {
            value: value.to_string(),
            state: default_localization_state(),
        },
    );
    LocalizableICUMessage { key: key.to_string(), messages, comment: None }
}

fn default_converter() -> XCStringConverter {
    XCStringConverter::new(
        "en".to_string(),
        ConverterOptions::default(),
        ParserConfig::default(),
    )
}

fn plural_cases(substitution: &Substitution) -> &OrderedMap<xcstrings_converter::xcstrings::VariationValue> {
    match &substitution.variations {
        VariationType::Plural(m) => m,
        VariationType::Select(_) => panic!("expected a plural variation"),
    }
}

// Scenario: one plural message yields the named substitution reference as
// its value and a full substitution table.
#[test]
fn test_plural_substitution_table() {
    let message = single_locale_message(
        "items",
        "{itemCount, plural, one {{itemCount} item} other {{itemCount} items}}",
    );
    let converter = default_converter();
    let xcstrings = converter.convert(vec![message]).unwrap();
    let localization = xcstrings.strings.get("items").unwrap().localizations.get("en").unwrap();
    assert_eq!(localization.string_unit.value, "%#@itemCount@");
    let substitutions = localization.substitutions.as_ref().unwrap();
    assert_eq!(substitutions.len(), 1);
    let substitution = substitutions.get("itemCount").unwrap();
    assert_eq!(substitution.arg_num, 1);
    assert_eq!(substitution.format_specifier, "lld");
    let cases = plural_cases(substitution);
    assert_eq!(cases.len(), 2);
    let one = cases.get("one").unwrap();
    assert_eq!(one.string_unit.value, "%arg item");
    assert_eq!(one.string_unit.localization_state, LocalizationState::Translated);
    let other = cases.get("other").unwrap();
    assert_eq!(other.string_unit.value, "%arg items");
}

// A message without plural or select elements carries no substitution
// table at all.
#[test]
fn test_no_substitutions_table_is_omitted() {
    let message = single_locale_message("plain", "Hello {name}!");
    let converter = default_converter();
    let xcstrings = converter.convert(vec![message]).unwrap();
    let localization = xcstrings.strings.get("plain").unwrap().localizations.get("en").unwrap();
    assert!(localization.substitutions.is_none());
}

// The pound sign inside a plural case renders as the live-count marker.
#[test]
fn test_pound_inside_plural_case() {
    let message = single_locale_message(
        "pound",
        "{n, plural, one {# item} other {# items}}",
    );
    let converter = default_converter();
    let xcstrings = converter.convert(vec![message]).unwrap();
    let localization = xcstrings.strings.get("pound").unwrap().localizations.get("en").unwrap();
    let substitutions = localization.substitutions.as_ref().unwrap();
    let cases = plural_cases(substitutions.get("n").unwrap());
    assert_eq!(cases.get("one").unwrap().string_unit.value, "# item");
    assert_eq!(cases.get("other").unwrap().string_unit.value, "# items");
}

// Exact-count labels normalize: "=0" to "zero" and "=1" to "one".
#[test]
fn test_exact_count_labels_normalize() {
    let message = single_locale_message(
        "exact",
        "{n, plural, =0 {none} =1 {just one} other {lots}}",
    );
    let converter = default_converter();
    let xcstrings = converter.convert(vec![message]).unwrap();
    let localization = xcstrings.strings.get("exact").unwrap().localizations.get("en").unwrap();
    let cases_map = localization.substitutions.as_ref().unwrap();
    let cases = plural_cases(cases_map.get("n").unwrap());
    assert_eq!(cases.get("zero").unwrap().string_unit.value, "none");
    assert_eq!(cases.get("one").unwrap().string_unit.value, "just one");
    assert_eq!(cases.get("other").unwrap().string_unit.value, "lots");
    assert!(cases.get("=0").is_none());
    assert!(cases.get("=1").is_none());
}

// The categories the target format lacks always fail, whatever surrounds
// them.
#[test]
fn test_unsupported_plural_categories_fail() {
    for label in ["two", "few", "many"] {
        let message = single_locale_message(
            "unsupported",
            &format!("{{n, plural, {} {{a couple}} other {{lots}}}}", label),
        );
        let converter = default_converter();
        let result = converter.convert(vec![message]);
        assert!(result.is_err());
        let error_message = result.unwrap_err().message();
        assert!(error_message.contains("String Catalog doesn't support custom keys starting with"));
        assert!(error_message.contains(label));
    }
}

// An exact-count label other than zero or one is rejected.
#[test]
fn test_other_exact_count_labels_fail() {
    let message = single_locale_message(
        "eq_two",
        "{n, plural, =2 {a pair} other {lots}}",
    );
    let converter = default_converter();
    let result = converter.convert(vec![message]);
    assert!(result.is_err());
    assert!(result.unwrap_err().message().contains(
        "String Catalog doesn't support custom keys starting with '=' except for zero and one"
    ));
}

#[test]
fn test_key_format_from_string() {
    assert!(matches!(KeyFormat::from_string(&"zero".to_string()), Ok(KeyFormat::Zero)));
    assert!(matches!(KeyFormat::from_string(&"one".to_string()), Ok(KeyFormat::One)));
    assert!(matches!(KeyFormat::from_string(&"other".to_string()), Ok(KeyFormat::Other)));
    assert!(matches!(KeyFormat::from_string(&"=0".to_string()), Ok(KeyFormat::Zero)));
    assert!(matches!(KeyFormat::from_string(&"=1".to_string()), Ok(KeyFormat::One)));
    assert!(KeyFormat::from_string(&"two".to_string()).is_err());
    assert!(KeyFormat::from_string(&"few".to_string()).is_err());
    assert!(KeyFormat::from_string(&"many".to_string()).is_err());
    assert!(KeyFormat::from_string(&"=2".to_string()).is_err());
    let err = KeyFormat::from_string(&"bananas".to_string()).unwrap_err();
    assert!(err.message().contains("Unexpected key format: 'bananas'"));
}

#[test]
fn test_key_format_to_string() {
    assert_eq!(KeyFormat::Zero.to_string(), "zero");
    assert_eq!(KeyFormat::One.to_string(), "one");
    assert_eq!(KeyFormat::Other.to_string(), "other");
}

// Select labels are free-form and never validated against the plural
// taxonomy: splitting happily produces a "two" case key.
#[test]
fn test_select_labels_are_not_validated() {
    let message = single_locale_message(
        "free_labels",
        "{kind, select, two {a couple} other {something else}}",
    );
    let converter = default_converter();
    let xcstrings = converter.convert(vec![message]).unwrap();
    assert!(xcstrings.strings.get("free_labels_two").is_some());
    assert!(xcstrings.strings.get("free_labels_other").is_some());
}

// A select nested inside a plural arm is not detected as a select and
// stays a substitution of the plural message.
#[test]
fn test_nested_select_is_not_split() {
    let message = single_locale_message(
        "nested",
        "{count, plural, one {one} other {{gender, select, male {his} female {her} other {their}} items}}",
    );
    let converter = default_converter();
    let xcstrings = converter.convert(vec![message]).unwrap();
    assert_eq!(xcstrings.strings.len(), 1);
    assert!(xcstrings.strings.get("nested").is_some());
}

#[test]
fn test_default_localization_state_label() {
    assert_eq!(default_localization_state(), "translated");
}
