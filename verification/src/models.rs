//! The input side of a conversion: localizable messages keyed by locale,
//! converter options, and the template parser's configuration.

use vstd::prelude::*;

use crate::ordered_map::OrderedMap;
use crate::xcstrings::{ExtractionState, LocalizationState};

verus! {

/// One locale's template text and localization-state label.
pub struct LocalizableICUMessageValue {
    pub value: String,
    pub state: String,
}

/// The mathematical shadow of a `LocalizableICUMessageValue`.
pub struct MsgValM {
    pub value: Seq<char>,
    pub state: Seq<char>,
}

/// The mathematical shadow of a message: its key, the per-locale values in
/// order, and the optional comment.
pub struct MsgM {
    pub key: Seq<char>,
    pub locales: Seq<(Seq<char>, MsgValM)>,
    pub comment: Option<Seq<char>>,
}

impl LocalizableICUMessageValue {
    pub open spec fn model(&self) -> MsgValM {
        MsgValM { value: self.value@, state: self.state@ }
    }
}

/// One message as read from the input batch.
pub struct LocalizableICUString {
    pub key: String,
    pub messages: OrderedMap<LocalizableICUMessageValue>,
    pub comment: Option<String>,
}

/// One message handed to the converter.
pub struct LocalizableICUMessage {
    pub key: String,
    pub messages: OrderedMap<LocalizableICUMessageValue>,
    pub comment: Option<String>,
}

/// The whole input batch.
pub struct LocalizableICUStrings {
    pub strings: Vec<LocalizableICUString>,
}

/// The model of a per-locale value table's entries.
pub open spec fn vals_model(entries: Seq<(Seq<char>, LocalizableICUMessageValue)>) -> Seq<
    (Seq<char>, MsgValM),
> {
    entries.map_values(|p: (Seq<char>, LocalizableICUMessageValue)| (p.0, p.1.model()))
}

impl LocalizableICUMessage {
    pub open spec fn model(&self) -> MsgM {
        MsgM {
            key: self.key@,
            locales: vals_model(self.messages.entries()),
            comment: match self.comment {
                None => None,
                Some(c) => Some(c@),
            },
        }
    }

    pub open spec fn wf(&self) -> bool {
        self.messages.wf()
    }
}

impl From<LocalizableICUString> for LocalizableICUMessage {
    fn from(string: LocalizableICUString) -> (r: LocalizableICUMessage) {
        LocalizableICUMessage { key: string.key, messages: string.messages, comment: string.comment }
    }
}

impl vstd::std_specs::convert::FromSpecImpl<LocalizableICUString> for LocalizableICUMessage {
    open spec fn obeys_from_spec() -> bool {
        true
    }

    open spec fn from_spec(s: LocalizableICUString) -> LocalizableICUMessage {
        LocalizableICUMessage { key: s.key, messages: s.messages, comment: s.comment }
    }
}

/// The localization-state label an input value carries when none is given.
pub fn default_localization_state() -> (r: String)
    ensures
        r@ == "translated"@,
{
    String::from_str("translated")
}

/// How the converter treats the batch.
pub struct ConverterOptions {
    pub extraction_state: ExtractionState,
    pub localization_state: LocalizationState,
    pub warn_on_select: bool,
    pub error_on_select: bool,
    pub split_select_elements: bool,
}

impl ConverterOptions {
    pub fn default() -> (r: ConverterOptions)
        ensures
            r.extraction_state is Manual,
            r.localization_state == LocalizationState::Translated,
            !r.warn_on_select,
            !r.error_on_select,
            r.split_select_elements,
    {
        ConverterOptions {
            extraction_state: ExtractionState::Manual,
            localization_state: LocalizationState::Translated,
            warn_on_select: false,
            error_on_select: false,
            split_select_elements: true,
        }
    }
}

/// What the external template parser is told: whether markup-like tag
/// syntax is literal text, and whether plural/select constructs must
/// declare an `other` clause.
#[derive(Clone, Copy, PartialEq, Eq, Structural)]
pub struct ParserConfig {
    pub ignore_tag: bool,
    pub requires_other_clause: bool,
}

impl ParserConfig {
    pub fn default() -> (r: ParserConfig)
        ensures
            !r.ignore_tag,
            !r.requires_other_clause,
    {
        ParserConfig { ignore_tag: false, requires_other_clause: false }
    }

    pub fn new(ignore_tag: bool, requires_other_clause: bool) -> (r: ParserConfig)
        ensures
            r.ignore_tag == ignore_tag,
            r.requires_other_clause == requires_other_clause,
    {
        ParserConfig { ignore_tag, requires_other_clause }
    }
}

/// One row of a translation-platform export; carried alongside the batch
/// but not consumed by the conversion core.
pub struct CrowdinString {
    pub identifier: String,
    pub source_string: String,
    pub translation: String,
    pub context: String,
    pub max_length: Option<u32>,
}

} // verus!
