//! The string catalog document: the output shape of a conversion. A
//! document maps keys to entries, an entry maps locales to localizations,
//! and a localization carries a formatted value plus an optional
//! substitution table for plural and select variables.

use vstd::prelude::*;

use crate::ordered_map::OrderedMap;

verus! {

/// How an entry reached the catalog; this core always extracts manually.
#[derive(Debug)]
pub enum ExtractionState {
    Manual,
}

/// The review state of one localization.
#[derive(Clone, Copy, Debug, PartialEq, Eq, Structural)]
pub enum LocalizationState {
    Translated,
    NeedsReview,
}

/// A formatted value together with its review state.
#[derive(Debug)]
pub struct StringUnit {
    pub localization_state: LocalizationState,
    pub value: String,
}

/// One case's formatted text inside a substitution table.
#[derive(Debug)]
pub struct VariationValue {
    pub string_unit: StringUnit,
}

/// The case table of a substitution, tagged by the construct it came from.
#[derive(Debug)]
pub enum VariationType {
    Plural(OrderedMap<VariationValue>),
    Select(OrderedMap<VariationValue>),
}

/// How a plural or select variable's runtime value selects among
/// pre-formatted case strings.
#[derive(Debug)]
pub struct Substitution {
    pub arg_num: usize,
    pub format_specifier: String,
    pub variations: VariationType,
}

/// One locale's converted form of one key.
#[derive(Debug)]
pub struct Localization {
    pub string_unit: StringUnit,
    pub substitutions: Option<OrderedMap<Substitution>>,
}

/// All localizations of one key.
#[derive(Debug)]
pub struct XCString {
    pub extraction_state: ExtractionState,
    pub localizations: OrderedMap<Localization>,
}

/// The whole catalog document.
#[derive(Debug)]
pub struct XCStrings {
    pub source_language: String,
    pub strings: OrderedMap<XCString>,
    pub version: String,
}

/// The mathematical shadow of a `Substitution`: its argument number,
/// format specifier, construct kind, and case table as label/text pairs.
pub struct SubM {
    pub arg_num: int,
    pub format_specifier: Seq<char>,
    pub is_plural: bool,
    pub variations: Seq<(Seq<char>, Seq<char>)>,
}

/// The mathematical shadow of a `Localization`. An empty substitution
/// sequence stands for an omitted table.
pub struct LocM {
    pub state: LocalizationState,
    pub value: Seq<char>,
    pub substitutions: Seq<(Seq<char>, SubM)>,
}

/// The mathematical shadow of an `XCString`.
pub struct EntryM {
    pub localizations: Seq<(Seq<char>, LocM)>,
}

/// The mathematical shadow of an `XCStrings` document.
pub struct DocM {
    pub source_language: Seq<char>,
    pub version: Seq<char>,
    pub strings: Seq<(Seq<char>, EntryM)>,
}

/// The model of a variation table's entries: label and case text pairs.
pub open spec fn variations_model(entries: Seq<(Seq<char>, VariationValue)>) -> Seq<
    (Seq<char>, Seq<char>),
> {
    entries.map_values(|p: (Seq<char>, VariationValue)| (p.0, p.1.string_unit.value@))
}

/// The model of a substitution table's entries.
pub open spec fn substitutions_model(entries: Seq<(Seq<char>, Substitution)>) -> Seq<
    (Seq<char>, SubM),
> {
    entries.map_values(|p: (Seq<char>, Substitution)| (p.0, p.1.model()))
}

/// The model of a localization table's entries.
pub open spec fn localizations_model(entries: Seq<(Seq<char>, Localization)>) -> Seq<
    (Seq<char>, LocM),
> {
    entries.map_values(|p: (Seq<char>, Localization)| (p.0, p.1.model()))
}

/// The model of a document's key table.
pub open spec fn strings_model(entries: Seq<(Seq<char>, XCString)>) -> Seq<(Seq<char>, EntryM)> {
    entries.map_values(|p: (Seq<char>, XCString)| (p.0, p.1.model()))
}

impl VariationType {
    /// The case table itself, whichever construct tagged it.
    pub open spec fn cases(&self) -> Seq<(Seq<char>, VariationValue)> {
        match self {
            VariationType::Plural(m) => m.entries(),
            VariationType::Select(m) => m.entries(),
        }
    }

    /// Every case value is marked translated, and the table's keys are
    /// unique.
    pub open spec fn wf(&self) -> bool {
        &&& (match self {
            VariationType::Plural(m) => m.wf(),
            VariationType::Select(m) => m.wf(),
        })
        &&& forall|i: int|
            0 <= i < self.cases().len() ==> self.cases()[i].1.string_unit.localization_state
                == LocalizationState::Translated
    }
}

impl Substitution {
    pub open spec fn model(&self) -> SubM {
        SubM {
            arg_num: self.arg_num as int,
            format_specifier: self.format_specifier@,
            is_plural: self.variations is Plural,
            variations: variations_model(self.variations.cases()),
        }
    }

    pub open spec fn wf(&self) -> bool {
        self.variations.wf()
    }
}

impl Localization {
    pub open spec fn model(&self) -> LocM {
        LocM {
            state: self.string_unit.localization_state,
            value: self.string_unit.value@,
            substitutions: match self.substitutions {
                None => Seq::empty(),
                Some(m) => substitutions_model(m.entries()),
            },
        }
    }

    /// The substitution table is present exactly when it is non-empty, and
    /// all tables are well-formed.
    pub open spec fn wf(&self) -> bool {
        match self.substitutions {
            None => true,
            Some(m) => {
                &&& m.entries().len() > 0
                &&& m.wf()
                &&& forall|i: int| 0 <= i < m.entries().len() ==> (#[trigger] m.entries()[i].1).wf()
            },
        }
    }
}

impl XCString {
    pub open spec fn model(&self) -> EntryM {
        EntryM {
            localizations: localizations_model(self.localizations.entries()),
        }
    }

    pub open spec fn wf(&self) -> bool {
        &&& self.extraction_state is Manual
        &&& self.localizations.wf()
        &&& forall|i: int|
            0 <= i < self.localizations.entries().len() ==> (
            #[trigger] self.localizations.entries()[i].1).wf()
    }
}

impl XCStrings {
    pub open spec fn model(&self) -> DocM {
        DocM {
            source_language: self.source_language@,
            version: self.version@,
            strings: strings_model(self.strings.entries()),
        }
    }

    pub open spec fn wf(&self) -> bool {
        &&& self.strings.wf()
        &&& forall|i: int|
            0 <= i < self.strings.entries().len() ==> (#[trigger] self.strings.entries()[i].1).wf()
    }
}

} // verus!
