use xcstrings_converter::ast::Element;
use xcstrings_converter::converter::formatter::{FormatterMode, XCStringFormatter};
use xcstrings_converter::text::{decimal_string, trim_str};

fn arg(name: &str) -> Element {
    Element::Argument { name: name.to_string() }
}

fn lit(text: &str) -> Element {
    Element::Literal { text: text.to_string() }
}

#[test]
fn test_format() {
    let mut formatter = XCStringFormatter::new(FormatterMode::StringUnit);
    let element = arg("name1");
    assert_eq!(formatter.format(&element).unwrap(), "%1$@");
    let element = lit("Hello, ");
    assert_eq!(formatter.format(&element).unwrap(), "Hello, ");
    let element = arg("name2");
    assert_eq!(formatter.format(&element).unwrap(), "%2$@");
}

#[test]
fn formatter_test_format() {
    let mut formatter = XCStringFormatter::new(FormatterMode::StringUnit);
    assert_eq!(formatter.format(&arg("name1")).unwrap(), "%1$@");
    assert_eq!(formatter.format(&lit("Hello, ")).unwrap(), "Hello, ");
    assert_eq!(formatter.format(&arg("name2")).unwrap(), "%2$@");
}

#[test]
fn xcstring_formatter_test_format() {
    let mut formatter = XCStringFormatter::new(FormatterMode::StringUnit);
    assert_eq!(formatter.format(&arg("name1")).unwrap(), "%1$@");
    assert_eq!(formatter.format(&lit("Hello, ")).unwrap(), "Hello, ");
    assert_eq!(formatter.format(&arg("name2")).unwrap(), "%2$@");
}

#[test]
fn test_format_batch() {
    let mut formatter = XCStringFormatter::new(FormatterMode::StringUnit);
    let elements = vec![lit("Hello, "), arg("name1"), lit("!")];
    assert_eq!(formatter.format_batch(&elements).unwrap(), "Hello, %1$@!");
}

#[test]
fn test_format_batch_optimized_matches_format_batch() {
    let elements = vec![lit("Hi "), arg("a"), lit(" "), arg("b"), lit(" "), arg("a")];
    let mut f1 = XCStringFormatter::new(FormatterMode::StringUnit);
    let mut f2 = XCStringFormatter::new(FormatterMode::StringUnit);
    let r1 = f1.format_batch(&elements).unwrap();
    let r2 = f2.format_batch_optimized(&elements).unwrap();
    assert_eq!(r1, r2);
    assert_eq!(r1, "Hi %1$@ %2$@ %1$@");
}

#[test]
fn test_format_with_capacity() {
    let mut formatter = XCStringFormatter::new(FormatterMode::StringUnit);
    let r = formatter.format_with_capacity(&arg("name1"), 16).unwrap();
    assert_eq!(r, "%1$@");
}

// A name repeated within one pass keeps its first-assigned position.
#[test]
fn test_repeated_name_reuses_first_position() {
    let mut formatter = XCStringFormatter::new(FormatterMode::StringUnit);
    assert_eq!(formatter.format(&arg("a")).unwrap(), "%1$@");
    assert_eq!(formatter.format(&arg("b")).unwrap(), "%2$@");
    assert_eq!(formatter.format(&arg("a")).unwrap(), "%1$@");
    assert_eq!(formatter.format(&arg("b")).unwrap(), "%2$@");
    assert_eq!(formatter.format(&arg("c")).unwrap(), "%3$@");
}

// In case-body mode arguments render as the fixed token; numbers and
// dates keep positional references.
#[test]
fn test_case_body_mode_renders_arg_token() {
    let mut formatter = XCStringFormatter::new(FormatterMode::Plural);
    assert_eq!(formatter.format(&arg("count")).unwrap(), "%arg");
    let number = Element::Number { name: "n".to_string() };
    assert_eq!(formatter.format(&number).unwrap(), "%2$lld");
    let date = Element::Date { name: "d".to_string() };
    assert_eq!(formatter.format(&date).unwrap(), "%3$@");
}

#[test]
fn test_plural_select_and_pound_renderings() {
    let mut formatter = XCStringFormatter::new(FormatterMode::StringUnit);
    let plural = Element::Plural { name: "itemCount".to_string(), offset: 0, cases: Vec::new() };
    assert_eq!(formatter.format(&plural).unwrap(), "%#@itemCount@");
    let select = Element::Select { name: "gender".to_string(), cases: Vec::new() };
    assert_eq!(formatter.format(&select).unwrap(), "%#@gender@");
    assert_eq!(formatter.format(&Element::Pound).unwrap(), "#");
    assert_eq!(formatter.format(&Element::Other).unwrap(), "");
}

// A literal-only sequence formats to itself unchanged.
#[test]
fn test_literal_only_identity() {
    let mut formatter = XCStringFormatter::new(FormatterMode::StringUnit);
    let elements = vec![lit("Hello "), lit("world"), lit("!")];
    assert_eq!(formatter.format_batch(&elements).unwrap(), "Hello world!");
}

// Positions past nine render with all their decimal digits.
#[test]
fn test_two_digit_positions() {
    let mut formatter = XCStringFormatter::new(FormatterMode::StringUnit);
    for i in 0..11 {
        let r = formatter.format(&arg(&format!("v{}", i))).unwrap();
        assert_eq!(r, format!("%{}$@", i + 1));
    }
    assert_eq!(formatter.format(&arg("v11")).unwrap(), "%12$@");
}

#[test]
fn test_decimal_string_exact_values() {
    assert_eq!(decimal_string(0), "0");
    assert_eq!(decimal_string(7), "7");
    assert_eq!(decimal_string(10), "10");
    assert_eq!(decimal_string(105), "105");
    assert_eq!(decimal_string(98761), "98761");
}

#[test]
fn test_trim_str_exact_values() {
    assert_eq!(trim_str("  hello  "), "hello");
    assert_eq!(trim_str("hello"), "hello");
    assert_eq!(trim_str("\t\n hello world \u{3000}"), "hello world");
    assert_eq!(trim_str("   "), "");
    assert_eq!(trim_str(""), "");
}
