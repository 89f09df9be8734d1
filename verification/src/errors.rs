//! The conversion error taxonomy. Every failure of the conversion core is
//! one of these variants; `message` renders the human-readable text that
//! names the offending key, locale, variable or label.

use vstd::prelude::*;

verus! {

/// The mathematical shadow of `ConvertError`: the same variants over
/// character sequences.
#[allow(inconsistent_fields)]
pub enum ErrM {
    ParseFailure { locale: Seq<char>, text: Seq<char> },
    VariableCountMismatch { key: Seq<char>, locale: Seq<char>, found: int, expected: int },
    VariableNameMismatch {
        key: Seq<char>,
        locale: Seq<char>,
        variable: Seq<char>,
        expected: Seq<Seq<char>>,
    },
    MissingVariable { key: Seq<char>, locale: Seq<char>, variable: Seq<char> },
    UnsupportedSelect { key: Seq<char> },
    UnsupportedPluralCategory { label: Seq<char> },
    InvalidKeyFormat { label: Seq<char> },
    PositionOverflow { variable: Seq<char> },
}

/// An error of the conversion core.
#[derive(Debug)]
#[allow(inconsistent_fields)]
pub enum ConvertError {
    /// A locale's template failed to parse.
    ParseFailure { locale: String, text: String },
    /// A locale references a different number of variables than the
    /// reference locale.
    VariableCountMismatch { key: String, locale: String, found: usize, expected: usize },
    /// A locale references a variable that the reference locale does not.
    VariableNameMismatch { key: String, locale: String, variable: String, expected: Vec<String> },
    /// A locale lacks a variable that the reference locale references.
    MissingVariable { key: String, locale: String, variable: String },
    /// A select element was found while select splitting is disabled.
    UnsupportedSelect { key: String },
    /// A plural case label the target format has no category for.
    UnsupportedPluralCategory { label: String },
    /// A plural case label outside the supported taxonomy.
    InvalidKeyFormat { label: String },
    /// The positional argument counter cannot be incremented further.
    PositionOverflow { variable: String },
}

impl ConvertError {
    /// The value this error stands for.
    pub open spec fn model(&self) -> ErrM {
        match self {
            ConvertError::ParseFailure { locale, text } => ErrM::ParseFailure {
                locale: locale@,
                text: text@,
            },
            ConvertError::VariableCountMismatch { key, locale, found, expected } => {
                ErrM::VariableCountMismatch {
                    key: key@,
                    locale: locale@,
                    found: *found as int,
                    expected: *expected as int,
                }
            },
            ConvertError::VariableNameMismatch { key, locale, variable, expected } => {
                ErrM::VariableNameMismatch {
                    key: key@,
                    locale: locale@,
                    variable: variable@,
                    expected: crate::text::views_of(expected@),
                }
            },
            ConvertError::MissingVariable { key, locale, variable } => ErrM::MissingVariable {
                key: key@,
                locale: locale@,
                variable: variable@,
            },
            ConvertError::UnsupportedSelect { key } => ErrM::UnsupportedSelect { key: key@ },
            ConvertError::UnsupportedPluralCategory { label } => ErrM::UnsupportedPluralCategory {
                label: label@,
            },
            ConvertError::InvalidKeyFormat { label } => ErrM::InvalidKeyFormat { label: label@ },
            ConvertError::PositionOverflow { variable } => ErrM::PositionOverflow {
                variable: variable@,
            },
        }
    }
}

/// `items` joined by `", "`.
pub open spec fn spec_join_comma(items: Seq<Seq<char>>) -> Seq<char>
    decreases items.len(),
{
    if items.len() == 0 {
        Seq::empty()
    } else if items.len() == 1 {
        items[0]
    } else {
        spec_join_comma(items.drop_last()) + ", "@ + items.last()
    }
}

/// The rendered message of an error.
pub open spec fn spec_message(e: ErrM) -> Seq<char> {
    match e {
        ErrM::ParseFailure { locale, text } => "Failed to parse message '"@ + text
            + "' for locale '"@ + locale + "'"@,
        ErrM::VariableCountMismatch { key, locale, found, expected } => {
            "Variable count mismatch in key '"@ + key + "'. Language '"@ + locale + "' has "@
                + crate::text::spec_decimal(if found >= 0 {
                found as nat
            } else {
                0
            }) + " variables, but expected "@ + crate::text::spec_decimal(
                if expected >= 0 {
                    expected as nat
                } else {
                    0
                },
            )
        },
        ErrM::VariableNameMismatch { key, locale, variable, expected } => {
            "Variable name mismatch in key '"@ + key + "'. Language '"@ + locale
                + "' contains variable '"@ + variable
                + "' which is not found in other languages. Expected variables: ["@
                + spec_join_comma(expected) + "]"@
        },
        ErrM::MissingVariable { key, locale, variable } => "Missing variable in key '"@ + key
            + "'. Language '"@ + locale + "' is missing variable '"@ + variable
            + "' which exists in other languages"@,
        ErrM::UnsupportedSelect { key } => "Select elements are not supported by xcstrings. Found in key: '"@
            + key + "'. Consider enabling split_select_elements option."@,
        ErrM::UnsupportedPluralCategory { label } => "String Catalog doesn't support custom keys starting with '"@
            + label + "'"@,
        ErrM::InvalidKeyFormat { label } => {
            if label.len() > 0 && label[0] == '=' {
                "String Catalog doesn't support custom keys starting with '=' except for zero and one"@
            } else {
                "Unexpected key format: '"@ + label + "'"@
            }
        },
        ErrM::PositionOverflow { variable } => "Position overflow for argument '"@ + variable
            + "'"@,
    }
}

fn join_comma(items: &Vec<String>) -> (r: String)
    ensures
        r@ == spec_join_comma(items@.map_values(|s: String| s@)),
{
    let ghost views = items@.map_values(|s: String| s@);
    let mut r = String::new();
    let n = items.len();
    let mut i: usize = 0;
    while i < n
        invariant
            n == items.len(),
            views == items@.map_values(|s: String| s@),
            i <= n,
            r@ == spec_join_comma(views.take(i as int)),
        decreases n - i,
    {
        if i > 0 {
            r.append(", ");
            proof {
                reveal_strlit(", ");
            }
        }
        r.append(items[i].as_str());
        proof {
            assert(views.take(i + 1).drop_last() =~= views.take(i as int));
            assert(views.take(i + 1).last() == views[i as int]);
        }
        i += 1;
    }
    proof {
        assert(views.take(n as int) =~= views);
    }
    r
}

impl ConvertError {
    /// The human-readable description, naming the offending key, locale,
    /// variable or label.
    pub fn message(&self) -> (r: String)
        ensures
            r@ == spec_message(self.model()),
    {
        match self {
            ConvertError::ParseFailure { locale, text } => {
                proof {
                    reveal_strlit("Failed to parse message '");
                    reveal_strlit("' for locale '");
                    reveal_strlit("'");
                }
                let mut r = String::from_str("Failed to parse message '");
                r.append(text.as_str());
                r.append("' for locale '");
                r.append(locale.as_str());
                r.append("'");
                r
            },
            ConvertError::VariableCountMismatch { key, locale, found, expected } => {
                proof {
                    reveal_strlit("Variable count mismatch in key '");
                    reveal_strlit("'. Language '");
                    reveal_strlit("' has ");
                    reveal_strlit(" variables, but expected ");
                }
                let mut r = String::from_str("Variable count mismatch in key '");
                r.append(key.as_str());
                r.append("'. Language '");
                r.append(locale.as_str());
                r.append("' has ");
                r.append(crate::text::decimal_string(*found).as_str());
                r.append(" variables, but expected ");
                r.append(crate::text::decimal_string(*expected).as_str());
                r
            },
            ConvertError::VariableNameMismatch { key, locale, variable, expected } => {
                proof {
                    reveal_strlit("Variable name mismatch in key '");
                    reveal_strlit("'. Language '");
                    reveal_strlit("' contains variable '");
                    reveal_strlit("' which is not found in other languages. Expected variables: [");
                    reveal_strlit("]");
                }
                let mut r = String::from_str("Variable name mismatch in key '");
                r.append(key.as_str());
                r.append("'. Language '");
                r.append(locale.as_str());
                r.append("' contains variable '");
                r.append(variable.as_str());
                r.append("' which is not found in other languages. Expected variables: [");
                r.append(join_comma(expected).as_str());
                r.append("]");
                r
            },
            ConvertError::MissingVariable { key, locale, variable } => {
                proof {
                    reveal_strlit("Missing variable in key '");
                    reveal_strlit("'. Language '");
                    reveal_strlit("' is missing variable '");
                    reveal_strlit("' which exists in other languages");
                }
                let mut r = String::from_str("Missing variable in key '");
                r.append(key.as_str());
                r.append("'. Language '");
                r.append(locale.as_str());
                r.append("' is missing variable '");
                r.append(variable.as_str());
                r.append("' which exists in other languages");
                r
            },
            ConvertError::UnsupportedSelect { key } => {
                proof {
                    reveal_strlit("Select elements are not supported by xcstrings. Found in key: '");
                    reveal_strlit("'. Consider enabling split_select_elements option.");
                }
                let mut r = String::from_str(
                    "Select elements are not supported by xcstrings. Found in key: '",
                );
                r.append(key.as_str());
                r.append("'. Consider enabling split_select_elements option.");
                r
            },
            ConvertError::UnsupportedPluralCategory { label } => {
                proof {
                    reveal_strlit("String Catalog doesn't support custom keys starting with '");
                    reveal_strlit("'");
                }
                let mut r = String::from_str(
                    "String Catalog doesn't support custom keys starting with '",
                );
                r.append(label.as_str());
                r.append("'");
                r
            },
            ConvertError::InvalidKeyFormat { label } => {
                let starts_eq = if label.as_str().unicode_len() > 0 {
                    label.as_str().get_char(0) == '='
                } else {
                    false
                };
                if starts_eq {
                    let r = String::from_str(
                        "String Catalog doesn't support custom keys starting with '=' except for zero and one",
                    );
                    r
                } else {
                    proof {
                        reveal_strlit("Unexpected key format: '");
                        reveal_strlit("'");
                    }
                    let mut r = String::from_str("Unexpected key format: '");
                    r.append(label.as_str());
                    r.append("'");
                    r
                }
            },
            ConvertError::PositionOverflow { variable } => {
                proof {
                    reveal_strlit("Position overflow for argument '");
                    reveal_strlit("'");
                }
                let mut r = String::from_str("Position overflow for argument '");
                r.append(variable.as_str());
                r.append("'");
                r
            },
        }
    }
}

} // verus!
