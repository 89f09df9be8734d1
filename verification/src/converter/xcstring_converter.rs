//! The converter: validates variable-name consistency across locales,
//! detects and splits top-level select constructs, formats every locale,
//! and assembles the catalog document — sequentially or with per-message
//! data parallelism.

use vstd::prelude::*;

use rayon::iter::{IntoParallelRefIterator, ParallelIterator};

use crate::ast::{spec_collect_seq, CaseBranch, Element};
use crate::converter::formatter::{
    spec_elem_fails, spec_elem_render, spec_elem_tbl, spec_format_seq, FormatterMode,
    XCStringFormatter,
};
use crate::converter::substitution_builder::{spec_build, XCStringSubstitutionBuilder};
use crate::errors::{ConvertError, ErrM};
use crate::models::{ConverterOptions, LocalizableICUMessage, LocalizableICUMessageValue, MsgM,
    MsgValM, ParserConfig};
use crate::ordered_map::{
    lemma_insert_values, lemma_key_index_bounds, lemma_key_index_same_keys, spec_insert,
    OrderedMap,
};
use crate::parse::{parse_message, parse_of};
use crate::text::{spec_trim, str_eq, trim_str, views_of};
use crate::xcstrings::{
    DocM, EntryM, ExtractionState, LocM, Localization, LocalizationState, StringUnit, SubM,
    XCString, XCStrings,
};

verus! {

/// What the external parser yields for `text` under `cfg`.
pub open spec fn spec_parse(cfg: ParserConfig, text: Seq<char>) -> Option<Seq<Element>> {
    parse_of(text, cfg.ignore_tag, cfg.requires_other_clause)
}

/// The recursively collected variable list of `text`: every variable name
/// referenced anywhere in its tree, in first-occurrence order, without
/// repeats — or `None` when the text does not parse.
pub open spec fn spec_vars_of(cfg: ParserConfig, text: Seq<char>) -> Option<Seq<Seq<char>>> {
    match spec_parse(cfg, text) {
        Some(es) => Some(spec_collect_seq(Seq::empty(), es)),
        None => None,
    }
}

/// The index of the first entry of `cur` that `other` lacks, or `-1`.
pub open spec fn spec_first_absent(cur: Seq<Seq<char>>, other: Seq<Seq<char>>) -> int
    decreases cur.len(),
{
    if cur.len() == 0 {
        -1
    } else if !other.contains(cur[0]) {
        0
    } else {
        let r = spec_first_absent(cur.drop_first(), other);
        if r < 0 {
            -1
        } else {
            r + 1
        }
    }
}

pub proof fn lemma_first_absent(cur: Seq<Seq<char>>, other: Seq<Seq<char>>)
    ensures
        -1 <= spec_first_absent(cur, other) < cur.len(),
        spec_first_absent(cur, other) >= 0 ==> !other.contains(cur[spec_first_absent(cur, other)]),
        spec_first_absent(cur, other) >= 0 ==> forall|j: int|
            0 <= j < spec_first_absent(cur, other) ==> other.contains(#[trigger] cur[j]),
        spec_first_absent(cur, other) == -1 ==> forall|j: int|
            0 <= j < cur.len() ==> other.contains(#[trigger] cur[j]),
    decreases cur.len(),
{
    if cur.len() > 0 && other.contains(cur[0]) {
        lemma_first_absent(cur.drop_first(), other);
        assert(forall|j: int| 1 <= j < cur.len() ==> cur[j] == cur.drop_first()[j - 1]);
    }
}

/// The error cross-locale validation raises for the locale at index `i`,
/// whose variable list is `cur`, against the reference list `refs`: a
/// count mismatch when the lists differ in length, else a name mismatch at
/// the first variable the reference lacks, else a missing variable at the
/// first reference variable the locale lacks.
pub open spec fn spec_locale_mismatch(
    key: Seq<char>,
    locale: Seq<char>,
    cur: Seq<Seq<char>>,
    refs: Seq<Seq<char>>,
) -> Option<ErrM> {
    if cur.len() != refs.len() {
        Some(
            ErrM::VariableCountMismatch {
                key,
                locale,
                found: cur.len() as int,
                expected: refs.len() as int,
            },
        )
    } else if spec_first_absent(cur, refs) >= 0 {
        Some(
            ErrM::VariableNameMismatch {
                key,
                locale,
                variable: cur[spec_first_absent(cur, refs)],
                expected: refs,
            },
        )
    } else if spec_first_absent(refs, cur) >= 0 {
        Some(
            ErrM::MissingVariable {
                key,
                locale,
                variable: refs[spec_first_absent(refs, cur)],
            },
        )
    } else {
        None
    }
}

/// Validation from locale `i` on, against the first locale's reference
/// list `refs`: the first failing locale decides the error.
pub open spec fn spec_validate_from(
    cfg: ParserConfig,
    key: Seq<char>,
    locales: Seq<(Seq<char>, MsgValM)>,
    i: int,
    refs: Seq<Seq<char>>,
) -> Option<ErrM>
    decreases locales.len() - i,
{
    if i < 0 || i >= locales.len() {
        None
    } else {
        match spec_vars_of(cfg, locales[i].1.value) {
            None => Some(ErrM::ParseFailure { locale: locales[i].0, text: locales[i].1.value }),
            Some(cur) => match spec_locale_mismatch(key, locales[i].0, cur, refs) {
                Some(e) => Some(e),
                None => spec_validate_from(cfg, key, locales, i + 1, refs),
            },
        }
    }
}

/// Cross-locale variable-consistency validation: every locale's
/// recursively collected variable set must match the first locale's.
/// `None` means the message is consistent.
pub open spec fn spec_validate(
    cfg: ParserConfig,
    key: Seq<char>,
    locales: Seq<(Seq<char>, MsgValM)>,
) -> Option<ErrM> {
    if locales.len() == 0 {
        None
    } else {
        match spec_vars_of(cfg, locales[0].1.value) {
            None => Some(ErrM::ParseFailure { locale: locales[0].0, text: locales[0].1.value }),
            Some(refs) => spec_validate_from(cfg, key, locales, 1, refs),
        }
    }
}

/// Whether a top-level element of `es` is a select construct. This check
/// deliberately does not recurse into plural or select branches.
pub open spec fn spec_has_top_select(es: Seq<Element>) -> bool {
    exists|i: int| 0 <= i < es.len() && es[i] is Select
}

/// Whether any locale's parsed sequence has a top-level select; a locale
/// that fails to parse contributes nothing.
pub open spec fn spec_msg_has_select(cfg: ParserConfig, locales: Seq<(Seq<char>, MsgValM)>) -> bool {
    exists|i: int|
        #![trigger locales[i]]
        0 <= i < locales.len() && (match spec_parse(cfg, locales[i].1.value) {
            Some(es) => spec_has_top_select(es),
            None => false,
        })
}

pub open spec fn spec_needs_review_label() -> Seq<char> {
    seq!['n', 'e', 'e', 'd', 's', '_', 'r', 'e', 'v', 'i', 'e', 'w']
}

/// The localization state a state label maps to: `"needs_review"` maps to
/// needs-review, everything else (including `"translated"`) to translated.
pub open spec fn spec_state_of(label: Seq<char>) -> LocalizationState {
    if label == spec_needs_review_label() {
        LocalizationState::NeedsReview
    } else {
        LocalizationState::Translated
    }
}

/// One locale's conversion: parse, build the substitution table from the
/// top-level plural/select elements, format the whole sequence in
/// full-string mode, and trim.
pub open spec fn spec_localization(
    cfg: ParserConfig,
    locale: Seq<char>,
    val: MsgValM,
) -> Result<LocM, ErrM> {
    match spec_parse(cfg, val.value) {
        None => Err(ErrM::ParseFailure { locale, text: val.value }),
        Some(es) => match spec_build(es, 1, Seq::empty()) {
            Err(e) => Err(e),
            Ok(subs) => match spec_format_seq(Seq::empty(), es, FormatterMode::StringUnit) {
                Err(v) => Err(ErrM::PositionOverflow { variable: v }),
                Ok((out, _)) => Ok(
                    LocM {
                        state: spec_state_of(val.state),
                        value: spec_trim(out),
                        substitutions: subs,
                    },
                ),
            },
        },
    }
}

/// One message's catalog entry, locale by locale from index `i`, the first
/// failing locale deciding the error.
pub open spec fn spec_entry_from(
    cfg: ParserConfig,
    locales: Seq<(Seq<char>, MsgValM)>,
    i: int,
    acc: Seq<(Seq<char>, LocM)>,
) -> Result<Seq<(Seq<char>, LocM)>, ErrM>
    decreases locales.len() - i,
{
    if i < 0 || i >= locales.len() {
        Ok(acc)
    } else {
        match spec_localization(cfg, locales[i].0, locales[i].1) {
            Err(e) => Err(e),
            Ok(l) => spec_entry_from(cfg, locales, i + 1, spec_insert(acc, locales[i].0, l)),
        }
    }
}

/// One message's catalog entry.
pub open spec fn spec_entry(cfg: ParserConfig, locales: Seq<(Seq<char>, MsgValM)>) -> Result<
    EntryM,
    ErrM,
> {
    match spec_entry_from(cfg, locales, 0, Seq::empty()) {
        Err(e) => Err(e),
        Ok(ls) => Ok(EntryM { localizations: ls }),
    }
}

/// The index of the first top-level select element, or `-1`.
pub open spec fn spec_first_top_select(es: Seq<Element>) -> int
    decreases es.len(),
{
    if es.len() == 0 {
        -1
    } else if es[0] is Select {
        0
    } else {
        let r = spec_first_top_select(es.drop_first());
        if r < 0 {
            -1
        } else {
            r + 1
        }
    }
}

pub proof fn lemma_first_top_select(es: Seq<Element>)
    ensures
        -1 <= spec_first_top_select(es) < es.len(),
        spec_first_top_select(es) >= 0 ==> es[spec_first_top_select(es)] is Select,
        spec_first_top_select(es) >= 0 ==> forall|j: int|
            0 <= j < spec_first_top_select(es) ==> !(#[trigger] es[j] is Select),
        (spec_first_top_select(es) >= 0) == spec_has_top_select(es),
    decreases es.len(),
{
    if es.len() > 0 && !(es[0] is Select) {
        lemma_first_top_select(es.drop_first());
        assert(forall|j: int| 1 <= j < es.len() ==> es[j] == es.drop_first()[j - 1]);
        if spec_has_top_select(es.drop_first()) {
            let k = choose|k: int|
                0 <= k < es.drop_first().len() && es.drop_first()[k] is Select;
            assert(es[k + 1] is Select);
        } else if spec_has_top_select(es) {
            let k = choose|k: int| 0 <= k < es.len() && es[k] is Select;
            assert(es.drop_first()[k - 1] is Select);
        }
    }
}

/// The case labels of a branch list, in declaration order.
pub open spec fn spec_case_labels(cs: Seq<CaseBranch>) -> Seq<Seq<char>> {
    cs.map_values(|c: CaseBranch| c.label@)
}

/// The case labels the split enumerates: those of the first top-level
/// select element of the first locale's parse — `None` when there is no
/// first locale, it does not parse, or it has no top-level select, in
/// which case the message is carried over unsplit.
pub open spec fn spec_split_labels(cfg: ParserConfig, locales: Seq<(Seq<char>, MsgValM)>) -> Option<
    Seq<Seq<char>>,
> {
    if locales.len() == 0 {
        None
    } else {
        match spec_parse(cfg, locales[0].1.value) {
            None => None,
            Some(es) => {
                let i = spec_first_top_select(es);
                if i >= 0 {
                    Some(spec_case_labels(es[i]->Select_cases@))
                } else {
                    None
                }
            },
        }
    }
}

/// The index of the first branch labelled `label`, or `-1`.
pub open spec fn spec_case_index(cs: Seq<CaseBranch>, label: Seq<char>) -> int
    decreases cs.len(),
{
    if cs.len() == 0 {
        -1
    } else if cs[0].label@ == label {
        0
    } else {
        let r = spec_case_index(cs.drop_first(), label);
        if r < 0 {
            -1
        } else {
            r + 1
        }
    }
}

pub proof fn lemma_case_index(cs: Seq<CaseBranch>, label: Seq<char>)
    ensures
        -1 <= spec_case_index(cs, label) < cs.len(),
        spec_case_index(cs, label) >= 0 ==> cs[spec_case_index(cs, label)].label@ == label,
        spec_case_index(cs, label) >= 0 ==> forall|j: int|
            0 <= j < spec_case_index(cs, label) ==> (#[trigger] cs[j]).label@ != label,
        spec_case_index(cs, label) == -1 ==> forall|j: int|
            0 <= j < cs.len() ==> (#[trigger] cs[j]).label@ != label,
    decreases cs.len(),
{
    if cs.len() > 0 && cs[0].label@ != label {
        lemma_case_index(cs.drop_first(), label);
        assert(forall|j: int| 1 <= j < cs.len() ==> cs[j] == cs.drop_first()[j - 1]);
    }
}

pub open spec fn spec_other_label() -> Seq<char> {
    seq!['o', 't', 'h', 'e', 'r']
}

/// The body a select element contributes when the split takes case
/// `label`: the matching case's body, else the `"other"` case's body, else
/// nothing.
pub open spec fn spec_select_replacement(cs: Seq<CaseBranch>, label: Seq<char>) -> Seq<Element> {
    if spec_case_index(cs, label) >= 0 {
        cs[spec_case_index(cs, label)].body@
    } else if spec_case_index(cs, spec_other_label()) >= 0 {
        cs[spec_case_index(cs, spec_other_label())].body@
    } else {
        Seq::empty()
    }
}

/// One element rendered totally: a failing position assignment renders as
/// empty text and leaves the table alone.
pub open spec fn spec_render_total(
    tbl: Seq<Seq<char>>,
    e: Element,
    mode: FormatterMode,
) -> (Seq<char>, Seq<Seq<char>>) {
    if spec_elem_fails(tbl, e) {
        (Seq::empty(), tbl)
    } else {
        (spec_elem_render(tbl, e, mode), spec_elem_tbl(tbl, e))
    }
}

/// A sequence rendered totally, threading the table left to right.
pub open spec fn spec_render_total_seq(
    tbl: Seq<Seq<char>>,
    es: Seq<Element>,
    mode: FormatterMode,
) -> (Seq<char>, Seq<Seq<char>>)
    decreases es.len(),
{
    if es.len() == 0 {
        (Seq::empty(), tbl)
    } else {
        let (o, t) = spec_render_total(tbl, es[0], mode);
        let (rest, t2) = spec_render_total_seq(t, es.drop_first(), mode);
        (o + rest, t2)
    }
}

/// Select replacement over one element: a select element contributes its
/// chosen case's body, rendered through the shared formatter; every other
/// element renders as in a full-string pass.
pub open spec fn spec_replace_elem(
    tbl: Seq<Seq<char>>,
    e: Element,
    label: Seq<char>,
) -> (Seq<char>, Seq<Seq<char>>) {
    match e {
        Element::Select { cases, .. } => spec_render_total_seq(
            tbl,
            spec_select_replacement(cases@, label),
            FormatterMode::StringUnit,
        ),
        _ => spec_render_total(tbl, e, FormatterMode::StringUnit),
    }
}

/// Select replacement over a whole sequence.
pub open spec fn spec_replace_seq(
    tbl: Seq<Seq<char>>,
    es: Seq<Element>,
    label: Seq<char>,
) -> (Seq<char>, Seq<Seq<char>>)
    decreases es.len(),
{
    if es.len() == 0 {
        (Seq::empty(), tbl)
    } else {
        let (o, t) = spec_replace_elem(tbl, es[0], label);
        let (rest, t2) = spec_replace_seq(t, es.drop_first(), label);
        (o + rest, t2)
    }
}

/// One locale's template text with its top-level select elements replaced
/// by case `label`'s content; text that does not parse is kept unchanged.
pub open spec fn spec_replace(cfg: ParserConfig, text: Seq<char>, label: Seq<char>) -> Seq<char> {
    match spec_parse(cfg, text) {
        None => text,
        Some(es) => spec_replace_seq(Seq::empty(), es, label).0,
    }
}

/// The synthesized locale map of the split message for case `label`.
pub open spec fn spec_split_locales_from(
    cfg: ParserConfig,
    locales: Seq<(Seq<char>, MsgValM)>,
    label: Seq<char>,
    i: int,
    acc: Seq<(Seq<char>, MsgValM)>,
) -> Seq<(Seq<char>, MsgValM)>
    decreases locales.len() - i,
{
    if i < 0 || i >= locales.len() {
        acc
    } else {
        spec_split_locales_from(
            cfg,
            locales,
            label,
            i + 1,
            spec_insert(
                acc,
                locales[i].0,
                MsgValM {
                    value: spec_replace(cfg, locales[i].1.value, label),
                    state: locales[i].1.state,
                },
            ),
        )
    }
}

/// The synthesized key of the split message for case `label`.
pub open spec fn spec_split_key(key: Seq<char>, label: Seq<char>) -> Seq<char> {
    key + seq!['_'] + label
}

/// The catalog entries of a split message, one per case label, each under
/// its synthesized key.
pub open spec fn spec_split_entries(
    cfg: ParserConfig,
    key: Seq<char>,
    locales: Seq<(Seq<char>, MsgValM)>,
    labels: Seq<Seq<char>>,
    i: int,
    acc: Seq<(Seq<char>, EntryM)>,
) -> Result<Seq<(Seq<char>, EntryM)>, ErrM>
    decreases labels.len() - i,
{
    if i < 0 || i >= labels.len() {
        Ok(acc)
    } else {
        match spec_entry(cfg, spec_split_locales_from(cfg, locales, labels[i], 0, Seq::empty())) {
            Err(e) => Err(e),
            Ok(ent) => spec_split_entries(
                cfg,
                key,
                locales,
                labels,
                i + 1,
                acc.push((spec_split_key(key, labels[i]), ent)),
            ),
        }
    }
}

/// One message's contribution to the document: validation, select
/// detection, splitting or rejection, then per-locale formatting. The
/// result is the ordered list of `(key, entry)` pairs the message yields.
pub open spec fn spec_process(cfg: ParserConfig, split: bool, m: MsgM) -> Result<
    Seq<(Seq<char>, EntryM)>,
    ErrM,
> {
    match spec_validate(cfg, m.key, m.locales) {
        Some(e) => Err(e),
        None => {
            if spec_msg_has_select(cfg, m.locales) {
                if split {
                    match spec_split_labels(cfg, m.locales) {
                        Some(labels) => spec_split_entries(
                            cfg,
                            m.key,
                            m.locales,
                            labels,
                            0,
                            Seq::empty(),
                        ),
                        None => match spec_entry(cfg, m.locales) {
                            Err(e) => Err(e),
                            Ok(ent) => Ok(seq![(m.key, ent)]),
                        },
                    }
                } else {
                    Err(ErrM::UnsupportedSelect { key: m.key })
                }
            } else {
                match spec_entry(cfg, m.locales) {
                    Err(e) => Err(e),
                    Ok(ent) => Ok(seq![(m.key, ent)]),
                }
            }
        },
    }
}

/// Entries folded into the document map in order, later keys replacing
/// earlier values in place.
pub open spec fn spec_insert_all(
    acc: Seq<(Seq<char>, EntryM)>,
    entries: Seq<(Seq<char>, EntryM)>,
    j: int,
) -> Seq<(Seq<char>, EntryM)>
    decreases entries.len() - j,
{
    if j < 0 || j >= entries.len() {
        acc
    } else {
        spec_insert_all(spec_insert(acc, entries[j].0, entries[j].1), entries, j + 1)
    }
}

/// The whole batch from message `i` on: fail-fast on the first failing
/// message, otherwise every message's entries merged in order.
pub open spec fn spec_convert_from(
    cfg: ParserConfig,
    split: bool,
    msgs: Seq<MsgM>,
    i: int,
    acc: Seq<(Seq<char>, EntryM)>,
) -> Result<Seq<(Seq<char>, EntryM)>, ErrM>
    decreases msgs.len() - i,
{
    if i < 0 || i >= msgs.len() {
        Ok(acc)
    } else {
        match spec_process(cfg, split, msgs[i]) {
            Err(e) => Err(e),
            Ok(entries) => spec_convert_from(cfg, split, msgs, i + 1, spec_insert_all(acc, entries, 0)),
        }
    }
}

pub open spec fn spec_version_one() -> Seq<char> {
    seq!['1', '.', '0']
}

/// The document a batch converts to: the source language carried over,
/// version `"1.0"`, and the merged entries of every message — or the first
/// failing message's error.
pub open spec fn spec_convert(
    cfg: ParserConfig,
    split: bool,
    source_language: Seq<char>,
    msgs: Seq<MsgM>,
) -> Result<DocM, ErrM> {
    match spec_convert_from(cfg, split, msgs, 0, Seq::empty()) {
        Err(e) => Err(e),
        Ok(strings) => Ok(DocM { source_language, version: spec_version_one(), strings }),
    }
}

/// Whether `name` is among the views of `list`.
fn vec_contains_str(list: &Vec<String>, name: &str) -> (r: bool)
    ensures
        r == views_of(list@).contains(name@),
{
    let n = list.len();
    let mut i: usize = 0;
    while i < n
        invariant
            n == list@.len(),
            i <= n,
            forall|j: int| 0 <= j < i ==> views_of(list@)[j] != name@,
        decreases n - i,
    {
        if str_eq(list[i].as_str(), name) {
            proof {
                assert(views_of(list@)[i as int] == name@);
            }
            return true;
        }
        i += 1;
    }
    proof {
        if views_of(list@).contains(name@) {
            let k = choose|k: int| 0 <= k < views_of(list@).len() && views_of(list@)[k] == name@;
        }
    }
    false
}

/// Appends `name` to `vars` unless it is already there.
fn add_var(vars: &mut Vec<String>, name: &String)
    ensures
        views_of(final(vars)@) == crate::ast::spec_add_var(views_of(old(vars)@), name@),
{
    if !vec_contains_str(vars, name.as_str()) {
        vars.push(name.clone());
        proof {
            assert(views_of(vars@) =~= views_of(old(vars)@).push(name@));
        }
    }
}

/// A copy of a list of strings, view for view.
fn clone_string_vec(list: &Vec<String>) -> (r: Vec<String>)
    ensures
        views_of(r@) == views_of(list@),
{
    let n = list.len();
    let mut r: Vec<String> = Vec::new();
    let mut i: usize = 0;
    while i < n
        invariant
            n == list@.len(),
            i <= n,
            r@.len() == i,
            forall|j: int| 0 <= j < i ==> views_of(r@)[j] == views_of(list@)[j],
        decreases n - i,
    {
        r.push(list[i].clone());
        i += 1;
    }
    proof {
        assert(views_of(r@) =~= views_of(list@));
    }
    r
}

/// The first deviation of one locale's variable list `cur` from the
/// reference list `refs`, as `spec_locale_mismatch` ranks deviations.
fn check_locale_mismatch(
    key: &String,
    locale: &String,
    cur: &Vec<String>,
    refs: &Vec<String>,
) -> (r: Option<ConvertError>)
    ensures
        match r {
            None => spec_locale_mismatch(key@, locale@, views_of(cur@), views_of(refs@)) is None,
            Some(e) => spec_locale_mismatch(key@, locale@, views_of(cur@), views_of(refs@))
                == Some(e.model()),
        },
{
    let ghost curv = views_of(cur@);
    let ghost refsv = views_of(refs@);
    if cur.len() != refs.len() {
        return Some(
            ConvertError::VariableCountMismatch {
                key: key.clone(),
                locale: locale.clone(),
                found: cur.len(),
                expected: refs.len(),
            },
        );
    }
    let cn = cur.len();
    let mut j: usize = 0;
    while j < cn
        invariant
            cn == curv.len(),
            curv == views_of(cur@),
            refsv == views_of(refs@),
            curv.len() == refsv.len(),
            j <= cn,
            forall|k: int| 0 <= k < j ==> refsv.contains(#[trigger] curv[k]),
        decreases cn - j,
    {
        proof {
            assert(curv[j as int] == cur@[j as int]@);
        }
        if !vec_contains_str(refs, cur[j].as_str()) {
            proof {
                lemma_first_absent(curv, refsv);
                let x = spec_first_absent(curv, refsv);
                assert(!(x < j) && !(x > j));
                assert(curv.len() == cur@.len() && refsv.len() == refs@.len());
                assert(curv.len() == refsv.len());
                assert(spec_first_absent(curv, refsv) == j as int);
                let m = spec_locale_mismatch(key@, locale@, curv, refsv);
                assert(m matches Some(e2) && e2 == (ErrM::VariableNameMismatch {
                    key: key@,
                    locale: locale@,
                    variable: curv[j as int],
                    expected: refsv,
                }));
            }
            return Some(
                ConvertError::VariableNameMismatch {
                    key: key.clone(),
                    locale: locale.clone(),
                    variable: cur[j].clone(),
                    expected: clone_string_vec(refs),
                },
            );
        }
        proof {
            assert(refsv.contains(curv[j as int]));
        }
        j += 1;
    }
    proof {
        lemma_first_absent(curv, refsv);
    }
    let rn = refs.len();
    let mut k: usize = 0;
    while k < rn
        invariant
            rn == refsv.len(),
            curv == views_of(cur@),
            refsv == views_of(refs@),
            spec_first_absent(curv, refsv) == -1,
            curv.len() == refsv.len(),
            k <= rn,
            forall|x: int| 0 <= x < k ==> curv.contains(#[trigger] refsv[x]),
        decreases rn - k,
    {
        proof {
            assert(refsv[k as int] == refs@[k as int]@);
        }
        if !vec_contains_str(cur, refs[k].as_str()) {
            proof {
                lemma_first_absent(refsv, curv);
                let x = spec_first_absent(refsv, curv);
                assert(!(x < k) && !(x > k));
            }
            return Some(
                ConvertError::MissingVariable {
                    key: key.clone(),
                    locale: locale.clone(),
                    variable: refs[k].clone(),
                },
            );
        }
        proof {
            assert(curv.contains(refsv[k as int]));
        }
        k += 1;
    }
    proof {
        lemma_first_absent(refsv, curv);
    }
    None
}

/// Whether any element of `es` is a top-level select.
fn seq_has_top_select(es: &Vec<Element>) -> (r: bool)
    ensures
        r == spec_has_top_select(es@),
{
    let n = es.len();
    let mut i: usize = 0;
    while i < n
        invariant
            n == es@.len(),
            i <= n,
            forall|j: int| 0 <= j < i ==> !(#[trigger] es@[j] is Select),
        decreases n - i,
    {
        if matches!(&es[i], Element::Select { .. }) {
            return true;
        }
        i += 1;
    }
    false
}

/// Converts batches of localizable messages into a string catalog
/// document.
pub struct XCStringConverter {
    source_language: String,
    converter_options: ConverterOptions,
    parser_config: ParserConfig,
}

impl XCStringConverter {
    /// The parser configuration conversions run under.
    pub closed spec fn pcfg(&self) -> ParserConfig {
        self.parser_config
    }

    /// Whether select splitting is enabled.
    pub closed spec fn split_enabled(&self) -> bool {
        self.converter_options.split_select_elements
    }

    /// The catalog's source-language tag.
    pub closed spec fn source_lang(&self) -> Seq<char> {
        self.source_language@
    }

    pub fn new(
        source_language: String,
        converter_options: ConverterOptions,
        parser_config: ParserConfig,
    ) -> (r: XCStringConverter)
        ensures
            r.source_lang() == source_language@,
            r.split_enabled() == converter_options.split_select_elements,
            r.pcfg() == parser_config,
    {
        XCStringConverter { source_language, converter_options, parser_config }
    }

    /// Collects into `variables` every variable name referenced anywhere
    /// in `elements`, recursing into plural and select branches, in
    /// first-occurrence order without repeats.
    fn collect_variables_from_ast(&self, elements: &Vec<Element>, variables: &mut Vec<String>)
        ensures
            views_of(final(variables)@) == spec_collect_seq(views_of(old(variables)@), elements@),
        decreases elements@,
    {
        let ghost acc0 = views_of(variables@);
        let n = elements.len();
        let mut i: usize = 0;
        proof {
            assert(elements@.skip(0) =~= elements@);
        }
        while i < n
            invariant
                n == elements@.len(),
                i <= n,
                spec_collect_seq(acc0, elements@) == spec_collect_seq(
                    views_of(variables@),
                    elements@.skip(i as int),
                ),
            decreases n - i,
        {
            let ghost rest = elements@.skip(i as int);
            let ghost pre = views_of(variables@);
            proof {
                assert(rest[0] == elements@[i as int]);
                assert(rest.drop_first() =~= elements@.skip(i + 1));
            }
            match &elements[i] {
                Element::Argument { name } => add_var(variables, name),
                Element::Number { name } => add_var(variables, name),
                Element::Date { name } => add_var(variables, name),
                Element::Plural { name, cases, .. } => {
                    add_var(variables, name);
                    self.collect_variables_from_cases(cases, variables);
                },
                Element::Select { name, cases } => {
                    add_var(variables, name);
                    self.collect_variables_from_cases(cases, variables);
                },
                _ => {},
            }
            proof {
                assert(views_of(variables@) == crate::ast::spec_collect_elem(pre, rest[0]));
            }
            i += 1;
        }
        proof {
            assert(elements@.skip(n as int) =~= Seq::<Element>::empty());
        }
    }

    /// Collects the variables of every branch body in `cases`.
    fn collect_variables_from_cases(&self, cases: &Vec<CaseBranch>, variables: &mut Vec<String>)
        ensures
            views_of(final(variables)@) == crate::ast::spec_collect_cases(
                views_of(old(variables)@),
                cases@,
            ),
        decreases cases@,
    {
        let ghost acc0 = views_of(variables@);
        let n = cases.len();
        let mut i: usize = 0;
        proof {
            assert(cases@.skip(0) =~= cases@);
        }
        while i < n
            invariant
                n == cases@.len(),
                i <= n,
                crate::ast::spec_collect_cases(acc0, cases@) == crate::ast::spec_collect_cases(
                    views_of(variables@),
                    cases@.skip(i as int),
                ),
            decreases n - i,
        {
            let ghost rest = cases@.skip(i as int);
            proof {
                assert(rest[0] == cases@[i as int]);
                assert(rest.drop_first() =~= cases@.skip(i + 1));
            }
            self.collect_variables_from_ast(&cases[i].body, variables);
            i += 1;
        }
        proof {
            assert(cases@.skip(n as int) =~= Seq::<CaseBranch>::empty());
        }
    }

    /// The recursively collected variable list of one template text.
    fn extract_variables(&self, message_value: &String) -> (r: Result<Vec<String>, ()>)
        ensures
            match r {
                Ok(vars) => spec_vars_of(self.pcfg(), message_value@) == Some(views_of(vars@)),
                Err(_) => spec_vars_of(self.pcfg(), message_value@) is None,
            },
    {
        match parse_message(message_value.as_str(), &self.parser_config) {
            Ok(parsed) => {
                let mut variables: Vec<String> = Vec::new();
                self.collect_variables_from_ast(&parsed, &mut variables);
                proof {
                    assert(views_of(Seq::<String>::empty()) =~= Seq::<Seq<char>>::empty());
                }
                Ok(variables)
            },
            Err(_) => Err(()),
        }
    }

    /// Cross-locale variable-consistency validation: every locale's
    /// recursively collected variable set must match the first locale's in
    /// size and membership; the first deviation names the key, the locale
    /// and, for a name mismatch or missing variable, the variable.
    fn validate_variable_consistency(&self, message: &LocalizableICUMessage) -> (r: Result<
        (),
        ConvertError,
    >)
        ensures
            match r {
                Ok(_) => spec_validate(self.pcfg(), message.key@, message.model().locales)
                    is None,
                Err(e) => spec_validate(self.pcfg(), message.key@, message.model().locales)
                    == Some(e.model()),
            },
    {
        let ghost locales = message.model().locales;
        let n = message.messages.len();
        if n == 0 {
            return Ok(());
        }
        proof {
            assert(locales[0] == (message.messages.entries()[0].0, message.messages.entries()[0].1.model()));
        }
        let first_val = message.messages.value_at(0);
        let refs = match self.extract_variables(&first_val.value) {
            Ok(v) => v,
            Err(_) => {
                return Err(
                    ConvertError::ParseFailure {
                        locale: message.messages.key_at(0).clone(),
                        text: first_val.value.clone(),
                    },
                );
            },
        };
        let ghost refsv = views_of(refs@);
        let mut i: usize = 1;
        while i < n
            invariant
                1 <= i <= n,
                n == message.messages.entries().len(),
                locales == message.model().locales,
                refsv == views_of(refs@),
                spec_vars_of(self.pcfg(), locales[0].1.value) == Some(refsv),
                spec_validate(self.pcfg(), message.key@, locales) == spec_validate_from(
                    self.pcfg(),
                    message.key@,
                    locales,
                    i as int,
                    refsv,
                ),
            decreases n - i,
        {
            proof {
                assert(locales[i as int] == (
                    message.messages.entries()[i as int].0,
                    message.messages.entries()[i as int].1.model(),
                ));
            }
            let locale = message.messages.key_at(i);
            let val = message.messages.value_at(i);
            let cur = match self.extract_variables(&val.value) {
                Ok(v) => v,
                Err(_) => {
                    return Err(
                        ConvertError::ParseFailure {
                            locale: locale.clone(),
                            text: val.value.clone(),
                        },
                    );
                },
            };
            match check_locale_mismatch(&message.key, locale, &cur, &refs) {
                Some(e) => {
                    return Err(e);
                },
                None => {},
            }
            i += 1;
        }
        Ok(())
    }

    /// Whether any locale's top-level parsed sequence contains a select
    /// element; locales that fail to parse contribute nothing.
    fn has_select_elements(&self, message: &LocalizableICUMessage) -> (r: bool)
        ensures
            r == spec_msg_has_select(self.pcfg(), message.model().locales),
    {
        let ghost locales = message.model().locales;
        let n = message.messages.len();
        let mut i: usize = 0;
        while i < n
            invariant
                n == message.messages.entries().len(),
                locales == message.model().locales,
                i <= n,
                forall|j: int|
                    0 <= j < i ==> !(match spec_parse(self.pcfg(), (#[trigger] locales[j]).1.value) {
                        Some(es) => spec_has_top_select(es),
                        None => false,
                    }),
            decreases n - i,
    {
            proof {
                assert(locales[i as int] == (
                    message.messages.entries()[i as int].0,
                    message.messages.entries()[i as int].1.model(),
                ));
            }
            let val = message.messages.value_at(i);
            match parse_message(val.value.as_str(), &self.parser_config) {
                Ok(parsed) => {
                    if seq_has_top_select(&parsed) {
                        return true;
                    }
                },
                Err(_) => {},
            }
            i += 1;
        }
        false
    }

    /// Converts every locale of one (possibly split) message: parse, build
    /// the substitution table, format in full-string mode, trim, and map
    /// the state label.
    fn format(&self, messages: &OrderedMap<LocalizableICUMessageValue>) -> (r: Result<
        OrderedMap<Localization>,
        ConvertError,
    >)
        ensures
            match r {
                Ok(m) => {
                    &&& spec_entry_from(
                        self.pcfg(),
                        crate::models::vals_model(messages.entries()),
                        0,
                        Seq::empty(),
                    ) == Ok::<_, ErrM>(crate::xcstrings::localizations_model(m.entries()))
                    &&& m.wf()
                    &&& forall|i: int| 0 <= i < m.entries().len() ==> (#[trigger] m.entries()[i]).1.wf()
                },
                Err(e) => spec_entry_from(
                    self.pcfg(),
                    crate::models::vals_model(messages.entries()),
                    0,
                    Seq::empty(),
                ) == Err::<Seq<(Seq<char>, LocM)>, _>(e.model()),
            },
    {
        let ghost locs = crate::models::vals_model(messages.entries());
        let mut result: OrderedMap<Localization> = OrderedMap::new();
        let n = messages.len();
        let mut i: usize = 0;
        proof {
            assert(crate::xcstrings::localizations_model(result.entries()) =~= Seq::<
                (Seq<char>, LocM),
            >::empty());
        }
        while i < n
            invariant
                n == messages.entries().len(),
                locs == crate::models::vals_model(messages.entries()),
                i <= n,
                result.wf(),
                forall|k: int|
                    0 <= k < result.entries().len() ==> (#[trigger] result.entries()[k]).1.wf(),
                spec_entry_from(self.pcfg(), locs, 0, Seq::empty()) == spec_entry_from(
                    self.pcfg(),
                    locs,
                    i as int,
                    crate::xcstrings::localizations_model(result.entries()),
                ),
            decreases n - i,
        {
            proof {
                assert(locs[i as int] == (
                    messages.entries()[i as int].0,
                    messages.entries()[i as int].1.model(),
                ));
            }
            let locale = messages.key_at(i);
            let message = messages.value_at(i);
            let parsed = match parse_message(message.value.as_str(), &self.parser_config) {
                Ok(parsed) => parsed,
                Err(_) => {
                    return Err(
                        ConvertError::ParseFailure {
                            locale: locale.clone(),
                            text: message.value.clone(),
                        },
                    );
                },
            };
            let substitution_builder = XCStringSubstitutionBuilder::new();
            let substitutions = substitution_builder.build(&parsed)?;
            let mut formatter = XCStringFormatter::new(FormatterMode::StringUnit);
            let formatted_string = formatter.format_batch(&parsed)?;
            let trimmed = trim_str(formatted_string.as_str());
            let localization_state = state_of(&message.state);
            let substitutions_field: Option<OrderedMap<crate::xcstrings::Substitution>> = if substitutions.is_empty() {
                proof {
                    assert(crate::xcstrings::substitutions_model(substitutions.entries()) =~= Seq::<
                        (Seq<char>, SubM),
                    >::empty());
                }
                None
            } else {
                Some(substitutions)
            };
            let localization = Localization {
                string_unit: StringUnit { localization_state, value: trimmed },
                substitutions: substitutions_field,
            };
            let ghost lg = localization;
            let ghost before = result.entries();
            result.insert(locale.clone(), localization);
            proof {
                assert(lg.model() == (spec_localization(
                    self.pcfg(),
                    locs[i as int].0,
                    locs[i as int].1,
                )->Ok_0));
                lemma_localizations_model_insert(before, locs[i as int].0, lg);
                lemma_insert_values(before, locs[i as int].0, lg);
            }
            i += 1;
        }
        Ok(result)
    }

    /// One (possibly split) message's catalog entry: its localizations,
    /// extracted manually.
    fn convert_message(&self, localizable_icu_message: &LocalizableICUMessage) -> (r: Result<
        XCString,
        ConvertError,
    >)
        ensures
            match r {
                Ok(x) => spec_entry(self.pcfg(), localizable_icu_message.model().locales) == Ok::<
                    _,
                    ErrM,
                >(x.model()) && x.wf(),
                Err(e) => spec_entry(self.pcfg(), localizable_icu_message.model().locales)
                    == Err::<EntryM, _>(e.model()),
            },
    {
        let localizations = self.format(&localizable_icu_message.messages)?;
        Ok(XCString { extraction_state: ExtractionState::Manual, localizations })
    }

    /// One locale's template with its top-level select elements replaced
    /// by the content of case `case_key` (falling back to `"other"`, then
    /// to empty); text that does not parse is kept unchanged.
    fn replace_select_with_case(&self, original_value: &String, case_key: &String) -> (r: String)
        ensures
            r@ == spec_replace(self.pcfg(), original_value@, case_key@),
    {
        let parsed = match parse_message(original_value.as_str(), &self.parser_config) {
            Ok(parsed) => parsed,
            Err(_) => {
                return original_value.clone();
            },
        };
        let mut formatter = XCStringFormatter::new(FormatterMode::StringUnit);
        let mut result = String::new();
        let ghost mut done: Seq<char> = Seq::empty();
        proof {
            assert(parsed@.skip(0) =~= parsed@);
            assert(Seq::<char>::empty() + result@ =~= result@);
        }
        let n = parsed.len();
        let mut i: usize = 0;
        while i < n
            invariant
                n == parsed@.len(),
                i <= n,
                formatter.mode() is StringUnit,
                result@ == done,
                spec_replace_seq(Seq::empty(), parsed@, case_key@).0 == done + spec_replace_seq(
                    formatter.tbl(),
                    parsed@.skip(i as int),
                    case_key@,
                ).0,
                spec_replace_seq(Seq::empty(), parsed@, case_key@).1 == spec_replace_seq(
                    formatter.tbl(),
                    parsed@.skip(i as int),
                    case_key@,
                ).1,
            decreases n - i,
        {
            let ghost rest = parsed@.skip(i as int);
            let ghost pre = formatter.tbl();
            proof {
                assert(rest[0] == parsed@[i as int]);
                assert(rest.drop_first() =~= parsed@.skip(i + 1));
            }
            match &parsed[i] {
                Element::Select { cases, .. } => {
                    match select_case_body(cases, case_key) {
                        Some(body) => {
                            render_total(&mut formatter, body, &mut result);
                        },
                        None => {
                            proof {
                                let e = rest[0];
                                assert(spec_select_replacement(e->Select_cases@, case_key@)
                                    =~= Seq::<Element>::empty());
                            }
                        },
                    }
                },
                _ => {
                    match formatter.format(&parsed[i]) {
                        Ok(piece) => {
                            result.append(piece.as_str());
                        },
                        Err(_) => {},
                    }
                },
            }
            proof {
                let step = spec_replace_elem(pre, rest[0], case_key@);
                assert(result@ == done + step.0 && formatter.tbl() == step.1);
                let r2 = spec_replace_seq(formatter.tbl(), parsed@.skip(i + 1), case_key@);
                assert(done + (step.0 + r2.0) =~= (done + step.0) + r2.0);
                done = done + step.0;
            }
            i += 1;
        }
        proof {
            assert(parsed@.skip(n as int) =~= Seq::<Element>::empty());
            assert(done + Seq::<char>::empty() =~= done);
        }
        result
    }

    /// Splits one message on the first locale's first top-level select
    /// element: one synthesized message per declared case label, each
    /// locale's selects replaced by that case's content, the comment and
    /// state labels carried over. A message whose first locale has no
    /// top-level select is carried over whole.
    fn split_select_message(&self, message: &LocalizableICUMessage) -> (r: Vec<
        LocalizableICUMessage,
    >)
        requires
            message.model().locales.len() > 0,
        ensures
            match spec_split_labels(self.pcfg(), message.model().locales) {
                Some(labels) => {
                    &&& r@.len() == labels.len()
                    &&& forall|j: int|
                        0 <= j < labels.len() ==> (#[trigger] r@[j]).model() == (MsgM {
                            key: spec_split_key(message.model().key, labels[j]),
                            locales: spec_split_locales_from(
                                self.pcfg(),
                                message.model().locales,
                                labels[j],
                                0,
                                Seq::empty(),
                            ),
                            comment: message.model().comment,
                        })
                },
                None => r@.len() == 1 && r@[0].model() == message.model(),
            },
    {
        let ghost locales = message.model().locales;
        proof {
            assert(locales[0] == (
                message.messages.entries()[0].0,
                message.messages.entries()[0].1.model(),
            ));
        }
        let first_message = message.messages.value_at(0);
        let parsed = match parse_message(first_message.value.as_str(), &self.parser_config) {
            Ok(parsed) => parsed,
            Err(_) => {
                let mut out: Vec<LocalizableICUMessage> = Vec::new();
                out.push(clone_message(message));
                return out;
            },
        };
        let idx = match find_first_select(&parsed) {
            Some(idx) => idx,
            None => {
                let mut out: Vec<LocalizableICUMessage> = Vec::new();
                out.push(clone_message(message));
                return out;
            },
        };
        proof {
            lemma_first_top_select(parsed@);
        }
        let mut split_messages: Vec<LocalizableICUMessage> = Vec::new();
        match &parsed[idx] {
            Element::Select { cases, .. } => {
                let ghost labels = spec_case_labels(cases@);
                let cn = cases.len();
                let mut c: usize = 0;
                while c < cn
                    invariant
                        cn == cases@.len(),
                        labels == spec_case_labels(cases@),
                        locales == message.model().locales,
                        c <= cn,
                        split_messages@.len() == c,
                        forall|j: int|
                            0 <= j < c ==> (#[trigger] split_messages@[j]).model() == (MsgM {
                                key: spec_split_key(message.model().key, labels[j]),
                                locales: spec_split_locales_from(
                                    self.pcfg(),
                                    message.model().locales,
                                    labels[j],
                                    0,
                                    Seq::empty(),
                                ),
                                comment: message.model().comment,
                            }),
                    decreases cn - c,
                {
                    proof {
                        assert(labels[c as int] == cases@[c as int].label@);
                    }
                    let case_key = &cases[c].label;
                    let new_key = split_key(&message.key, case_key);
                    let mut new_messages: OrderedMap<LocalizableICUMessageValue> =
                        OrderedMap::new();
                    let ln = message.messages.len();
                    let mut l: usize = 0;
                    proof {
                        assert(crate::models::vals_model(new_messages.entries()) =~= Seq::<
                            (Seq<char>, MsgValM),
                        >::empty());
                    }
                    while l < ln
                        invariant
                            ln == message.messages.entries().len(),
                            locales == message.model().locales,
                            l <= ln,
                            spec_split_locales_from(
                                self.pcfg(),
                                locales,
                                cases@[c as int].label@,
                                l as int,
                                crate::models::vals_model(new_messages.entries()),
                            ) == spec_split_locales_from(
                                self.pcfg(),
                                locales,
                                cases@[c as int].label@,
                                0,
                                Seq::empty(),
                            ),
                            0 <= c < cases@.len(),
                        decreases ln - l,
                    {
                        proof {
                            assert(locales[l as int] == (
                                message.messages.entries()[l as int].0,
                                message.messages.entries()[l as int].1.model(),
                            ));
                        }
                        let locale = message.messages.key_at(l);
                        let msg_value = message.messages.value_at(l);
                        let new_value = self.replace_select_with_case(
                            &msg_value.value,
                            &cases[c].label,
                        );
                        let nv = LocalizableICUMessageValue {
                            value: new_value,
                            state: msg_value.state.clone(),
                        };
                        let ghost nvg = nv;
                        let ghost before = new_messages.entries();
                        new_messages.insert(locale.clone(), nv);
                        proof {
                            lemma_vals_model_insert(before, locales[l as int].0, nvg);
                        }
                        l += 1;
                    }
                    let comment = match &message.comment {
                        Some(cm) => Some(cm.clone()),
                        None => None,
                    };
                    let synthesized = LocalizableICUMessage {
                        key: new_key,
                        messages: new_messages,
                        comment,
                    };
                    proof {
                        assert(synthesized.model().comment == message.model().comment);
                        assert(synthesized.model().locales == spec_split_locales_from(
                            self.pcfg(),
                            locales,
                            labels[c as int],
                            0,
                            Seq::empty(),
                        ));
                    }
                    split_messages.push(synthesized);
                    c += 1;
                }
            },
            _ => {
                proof {
                    assert(false);
                }
            },
        }
        split_messages
    }

    /// The whole per-message pipeline: validation, select detection,
    /// splitting or rejection, per-locale formatting. Yields the ordered
    /// `(key, entry)` pairs this message contributes to the document.
    pub fn process_message(&self, message: &LocalizableICUMessage) -> (r: Result<
        Vec<(String, XCString)>,
        ConvertError,
    >)
        ensures
            match r {
                Ok(v) => {
                    &&& spec_process(self.pcfg(), self.split_enabled(), message.model()) == Ok::<
                        _,
                        ErrM,
                    >(pairs_model(v@))
                    &&& pairs_wf(v@)
                },
                Err(e) => spec_process(self.pcfg(), self.split_enabled(), message.model())
                    == Err::<Seq<(Seq<char>, EntryM)>, _>(e.model()),
            },
    {
        match self.validate_variable_consistency(message) {
            Err(e) => {
                return Err(e);
            },
            Ok(_) => {},
        }
        if self.has_select_elements(message) {
            if self.converter_options.split_select_elements {
                proof {
                    if message.model().locales.len() == 0 {
                        assert(!spec_msg_has_select(self.pcfg(), message.model().locales));
                    }
                }
                let split_messages = self.split_select_message(message);
                let ghost labels_opt = spec_split_labels(self.pcfg(), message.model().locales);
                let mut out: Vec<(String, XCString)> = Vec::new();
                proof {
                    assert(pairs_model(out@) =~= Seq::<(Seq<char>, EntryM)>::empty());
                }
                let n = split_messages.len();
                let mut j: usize = 0;
                while j < n
                    invariant
                        n == split_messages@.len(),
                        j <= n,
                        out@.len() == j,
                        pairs_wf(out@),
                        labels_opt == spec_split_labels(self.pcfg(), message.model().locales),
                        spec_msg_has_select(self.pcfg(), message.model().locales),
                        self.split_enabled(),
                        spec_validate(self.pcfg(), message.model().key, message.model().locales)
                            is None,
                        match labels_opt {
                            Some(labels) => {
                                &&& n == labels.len()
                                &&& (forall|k: int|
                                    0 <= k < n ==> (#[trigger] split_messages@[k]).model() == (
                                    MsgM {
                                        key: spec_split_key(message.model().key, labels[k]),
                                        locales: spec_split_locales_from(
                                            self.pcfg(),
                                            message.model().locales,
                                            labels[k],
                                            0,
                                            Seq::empty(),
                                        ),
                                        comment: message.model().comment,
                                    }))
                                &&& spec_split_entries(
                                    self.pcfg(),
                                    message.model().key,
                                    message.model().locales,
                                    labels,
                                    0,
                                    Seq::empty(),
                                ) == spec_split_entries(
                                    self.pcfg(),
                                    message.model().key,
                                    message.model().locales,
                                    labels,
                                    j as int,
                                    pairs_model(out@),
                                )
                            },
                            None => {
                                &&& n == 1
                                &&& split_messages@[0].model() == message.model()
                                &&& (j == 1 ==> (spec_entry(self.pcfg(), message.model().locales)
                                    matches Ok(ent) && pairs_model(out@) == seq![
                                    (message.model().key, ent),
                                ]))
                            },
                        },
                    decreases n - j,
                {
                    let x = match self.convert_message(&split_messages[j]) {
                        Ok(x) => x,
                        Err(e) => {
                            return Err(e);
                        },
                    };
                    let ghost xg = x;
                    let ghost keyg = split_messages@[j as int].key@;
                    let ghost outpre = out@;
                    out.push((split_messages[j].key.clone(), x));
                    proof {
                        assert(pairs_model(out@) =~= pairs_model(outpre).push((keyg, xg.model())));
                    }
                    j += 1;
                }
                Ok(out)
            } else {
                Err(ConvertError::UnsupportedSelect { key: message.key.clone() })
            }
        } else {
            let x = match self.convert_message(message) {
                Ok(x) => x,
                Err(e) => {
                    return Err(e);
                },
            };
            let ghost xg = x;
            let mut out: Vec<(String, XCString)> = Vec::new();
            out.push((message.key.clone(), x));
            proof {
                assert(pairs_model(out@) =~= seq![(message.key@, xg.model())]);
            }
            Ok(out)
        }
    }

    /// Merges one message's `(key, entry)` pairs into the document map in
    /// order, consuming them.
    fn merge_group(&self, strings: &mut OrderedMap<XCString>, group: Vec<(String, XCString)>)
        requires
            old(strings).wf(),
            forall|k: int|
                0 <= k < old(strings).entries().len()
                    ==> (#[trigger] old(strings).entries()[k]).1.wf(),
            pairs_wf(group@),
        ensures
            final(strings).wf(),
            forall|k: int|
                0 <= k < final(strings).entries().len()
                    ==> (#[trigger] final(strings).entries()[k]).1.wf(),
            crate::xcstrings::strings_model(final(strings).entries()) == spec_insert_all(
                crate::xcstrings::strings_model(old(strings).entries()),
                pairs_model(group@),
                0,
            ),
    {
        let mut group = group;
        let ghost g0 = pairs_model(group@);
        let ghost acc0 = crate::xcstrings::strings_model(strings.entries());
        let ghost mut consumed: int = 0;
        proof {
            assert(g0.skip(0) =~= g0);
        }
        while group.len() > 0
            invariant
                0 <= consumed <= g0.len(),
                pairs_model(group@) == g0.skip(consumed),
                consumed + group@.len() == g0.len(),
                pairs_wf(group@),
                strings.wf(),
                forall|k: int|
                    0 <= k < strings.entries().len() ==> (#[trigger] strings.entries()[k]).1.wf(),
                spec_insert_all(acc0, g0, 0) == spec_insert_all(
                    crate::xcstrings::strings_model(strings.entries()),
                    g0,
                    consumed,
                ),
            decreases group@.len(),
        {
            let ghost gpre = group@;
            let (key, xcstring) = group.remove(0);
            let ghost kg = key@;
            let ghost xg = xcstring;
            let ghost before = strings.entries();
            proof {
                assert(pairs_model(gpre)[0] == (kg, xg.model()));
                assert(g0[consumed] == (kg, xg.model()));
                assert(pairs_model(group@) =~= pairs_model(gpre).drop_first()) by {
                    assert(group@ =~= gpre.drop_first());
                    assert(forall|k: int|
                        0 <= k < group@.len() ==> #[trigger] pairs_model(group@)[k] == pairs_model(
                            gpre,
                        )[k + 1]);
                }
                assert(g0.skip(consumed).drop_first() =~= g0.skip(consumed + 1));
            }
            strings.insert(key, xcstring);
            proof {
                lemma_strings_model_insert(before, kg, xg);
                lemma_insert_values(crate::xcstrings::strings_model(before), kg, xg.model());
                assert(forall|k: int|
                    0 <= k < strings.entries().len() ==> (#[trigger] strings.entries()[k]).1.wf())
                    by {
                    lemma_insert_values(before, kg, xg);
                }
                consumed = consumed + 1;
            }
        }
        proof {
            assert(group@.len() == 0);
            assert(consumed == g0.len());
        }
    }

    /// Converts a whole batch sequentially: fail-fast on the first failing
    /// message, otherwise every message's entries merged into the document
    /// in input order. The result is pinned by `spec_convert`.
    pub fn convert(&self, messages: Vec<LocalizableICUMessage>) -> (r: Result<
        XCStrings,
        ConvertError,
    >)
        ensures
            match r {
                Ok(doc) => {
                    &&& spec_convert(
                        self.pcfg(),
                        self.split_enabled(),
                        self.source_lang(),
                        msgs_model(messages@),
                    ) == Ok::<_, ErrM>(doc.model())
                    &&& doc.wf()
                },
                Err(e) => spec_convert(
                    self.pcfg(),
                    self.split_enabled(),
                    self.source_lang(),
                    msgs_model(messages@),
                ) == Err::<DocM, _>(e.model()),
            },
    {
        let ghost msgs = msgs_model(messages@);
        let mut strings: OrderedMap<XCString> = OrderedMap::new();
        proof {
            assert(crate::xcstrings::strings_model(strings.entries()) =~= Seq::<
                (Seq<char>, EntryM),
            >::empty());
        }
        let n = messages.len();
        let mut i: usize = 0;
        while i < n
            invariant
                n == messages@.len(),
                msgs == msgs_model(messages@),
                i <= n,
                strings.wf(),
                forall|k: int|
                    0 <= k < strings.entries().len() ==> (#[trigger] strings.entries()[k]).1.wf(),
                spec_convert_from(self.pcfg(), self.split_enabled(), msgs, 0, Seq::empty())
                    == spec_convert_from(
                    self.pcfg(),
                    self.split_enabled(),
                    msgs,
                    i as int,
                    crate::xcstrings::strings_model(strings.entries()),
                ),
            decreases n - i,
        {
            proof {
                assert(msgs[i as int] == messages@[i as int].model());
            }
            let group = match self.process_message(&messages[i]) {
                Ok(g) => g,
                Err(e) => {
                    return Err(e);
                },
            };
            self.merge_group(&mut strings, group);
            i += 1;
        }
        let doc = XCStrings {
            source_language: self.source_language.clone(),
            strings,
            version: version_one(),
        };
        Ok(doc)
    }

    /// Relies on `rayon`'s parallel iterator over a vector: `par_iter`
    /// followed by an indexed `collect` applies the closure to every
    /// element and yields the results in input order, one per message.
    /// Each result then satisfies `process_message`'s verified contract.
    #[verifier::external_body]
    fn process_all_parallel(&self, messages: &Vec<LocalizableICUMessage>) -> (r: Vec<
        Result<Vec<(String, XCString)>, ConvertError>,
    >)
        ensures
            r@.len() == messages@.len(),
            forall|i: int|
                0 <= i < messages@.len() ==> (match #[trigger] r@[i] {
                    Ok(v) => spec_process(self.pcfg(), self.split_enabled(), messages@[i].model())
                        == Ok::<_, ErrM>(pairs_model(v@)) && pairs_wf(v@),
                    Err(e) => spec_process(self.pcfg(), self.split_enabled(), messages@[i].model())
                        == Err::<Seq<(Seq<char>, EntryM)>, _>(e.model()),
                }),
    {
        messages.par_iter().map(|m| self.process_message(m)).collect()
    }

    /// Converts a whole batch with message-granularity data parallelism:
    /// each worker runs the full per-message pipeline independently. The
    /// first failing message in input order decides the error; on success
    /// the document is the same one the sequential path builds.
    pub fn convert_parallel(&self, messages: Vec<LocalizableICUMessage>) -> (r: Result<
        XCStrings,
        ConvertError,
    >)
        ensures
            match r {
                Ok(doc) => {
                    &&& spec_convert(
                        self.pcfg(),
                        self.split_enabled(),
                        self.source_lang(),
                        msgs_model(messages@),
                    ) == Ok::<_, ErrM>(doc.model())
                    &&& doc.wf()
                },
                Err(e) => spec_convert(
                    self.pcfg(),
                    self.split_enabled(),
                    self.source_lang(),
                    msgs_model(messages@),
                ) == Err::<DocM, _>(e.model()),
            },
    {
        let ghost msgs = msgs_model(messages@);
        let mut results = self.process_all_parallel(&messages);
        let ghost all = results@;
        let mut strings: OrderedMap<XCString> = OrderedMap::new();
        proof {
            assert(crate::xcstrings::strings_model(strings.entries()) =~= Seq::<
                (Seq<char>, EntryM),
            >::empty());
        }
        let ghost mut i: int = 0;
        while results.len() > 0
            invariant
                0 <= i <= all.len(),
                all.len() == messages@.len(),
                msgs == msgs_model(messages@),
                results@ == all.skip(i),
                i + results@.len() == all.len(),
                forall|k: int|
                    0 <= k < messages@.len() ==> (match #[trigger] all[k] {
                        Ok(v) => spec_process(
                            self.pcfg(),
                            self.split_enabled(),
                            messages@[k].model(),
                        ) == Ok::<_, ErrM>(pairs_model(v@)) && pairs_wf(v@),
                        Err(e) => spec_process(
                            self.pcfg(),
                            self.split_enabled(),
                            messages@[k].model(),
                        ) == Err::<Seq<(Seq<char>, EntryM)>, _>(e.model()),
                    }),
                strings.wf(),
                forall|k: int|
                    0 <= k < strings.entries().len() ==> (#[trigger] strings.entries()[k]).1.wf(),
                spec_convert_from(self.pcfg(), self.split_enabled(), msgs, 0, Seq::empty())
                    == spec_convert_from(
                    self.pcfg(),
                    self.split_enabled(),
                    msgs,
                    i,
                    crate::xcstrings::strings_model(strings.entries()),
                ),
            decreases results@.len(),
        {
            let ghost rpre = results@;
            let next = results.remove(0);
            proof {
                assert(rpre[0] == all[i]);
                assert(results@ =~= all.skip(i + 1)) by {
                    assert(results@ =~= rpre.drop_first());
                    assert(all.skip(i).drop_first() =~= all.skip(i + 1));
                }
                assert(msgs[i] == messages@[i].model());
            }
            match next {
                Ok(group) => {
                    self.merge_group(&mut strings, group);
                    proof {
                        i = i + 1;
                    }
                },
                Err(e) => {
                    return Err(e);
                },
            }
        }
        proof {
            assert(i == all.len());
        }
        let doc = XCStrings {
            source_language: self.source_language.clone(),
            strings,
            version: version_one(),
        };
        Ok(doc)
    }
}

/// Taking models of a localization table commutes with insertion.
proof fn lemma_localizations_model_insert(
    a: Seq<(Seq<char>, Localization)>,
    key: Seq<char>,
    l: Localization,
)
    ensures
        crate::xcstrings::localizations_model(spec_insert(a, key, l)) =~= spec_insert(
            crate::xcstrings::localizations_model(a),
            key,
            l.model(),
        ),
{
    let m = crate::xcstrings::localizations_model(a);
    assert(forall|i: int| 0 <= i < a.len() ==> a[i].0 == #[trigger] m[i].0);
    lemma_key_index_same_keys(a, m, key);
    lemma_key_index_bounds(a, key);
}

/// Taking models of a document key table commutes with insertion.
proof fn lemma_strings_model_insert(a: Seq<(Seq<char>, XCString)>, key: Seq<char>, x: XCString)
    ensures
        crate::xcstrings::strings_model(spec_insert(a, key, x)) =~= spec_insert(
            crate::xcstrings::strings_model(a),
            key,
            x.model(),
        ),
{
    let m = crate::xcstrings::strings_model(a);
    assert(forall|i: int| 0 <= i < a.len() ==> a[i].0 == #[trigger] m[i].0);
    lemma_key_index_same_keys(a, m, key);
    lemma_key_index_bounds(a, key);
}

/// Taking models of a per-locale value table commutes with insertion.
proof fn lemma_vals_model_insert(
    a: Seq<(Seq<char>, LocalizableICUMessageValue)>,
    key: Seq<char>,
    v: LocalizableICUMessageValue,
)
    ensures
        crate::models::vals_model(spec_insert(a, key, v)) =~= spec_insert(
            crate::models::vals_model(a),
            key,
            v.model(),
        ),
{
    let m = crate::models::vals_model(a);
    assert(forall|i: int| 0 <= i < a.len() ==> a[i].0 == #[trigger] m[i].0);
    lemma_key_index_same_keys(a, m, key);
    lemma_key_index_bounds(a, key);
}

/// The localization state of a state label.
fn state_of(label: &String) -> (r: LocalizationState)
    ensures
        r == spec_state_of(label@),
{
    proof {
        reveal_strlit("needs_review");
        assert("needs_review"@ =~= spec_needs_review_label());
    }
    if str_eq(label.as_str(), "needs_review") {
        LocalizationState::NeedsReview
    } else {
        LocalizationState::Translated
    }
}

/// A copy of one message, model for model.
fn clone_message(message: &LocalizableICUMessage) -> (r: LocalizableICUMessage)
    ensures
        r.model() == message.model(),
{
    let n = message.messages.len();
    let mut messages: OrderedMap<LocalizableICUMessageValue> = OrderedMap::new();
    let mut pairs: Vec<(String, LocalizableICUMessageValue)> = Vec::new();
    let mut i: usize = 0;
    while i < n
        invariant
            n == message.messages.entries().len(),
            i <= n,
            pairs@.len() == i,
            forall|j: int|
                0 <= j < i ==> (#[trigger] pairs@[j]).0@ == message.messages.entries()[j].0
                    && pairs@[j].1 == message.messages.entries()[j].1,
        decreases n - i,
    {
        let k = message.messages.key_at(i);
        let v = message.messages.value_at(i);
        pairs.push((k.clone(), LocalizableICUMessageValue { value: v.value.clone(), state: v.state.clone() }));
        proof {
            assert(pairs@[i as int].1.value@ == message.messages.entries()[i as int].1.value@);
            assert(pairs@[i as int].1 == message.messages.entries()[i as int].1) by {
                let a = pairs@[i as int].1;
                let b = message.messages.entries()[i as int].1;
                assert(a.value == b.value && a.state == b.state);
            }
        }
        i += 1;
    }
    messages = OrderedMap { pairs };
    proof {
        assert(messages.entries() =~= message.messages.entries());
    }
    let comment = match &message.comment {
        Some(c) => Some(c.clone()),
        None => None,
    };
    let r = LocalizableICUMessage { key: message.key.clone(), messages, comment };
    proof {
        assert(r.model().comment == message.model().comment);
    }
    r
}

/// `"1.0"`, the format version this core writes.
fn version_one() -> (r: String)
    ensures
        r@ == spec_version_one(),
{
    proof {
        reveal_strlit("1.0");
        assert("1.0"@ =~= spec_version_one());
    }
    String::from_str("1.0")
}

/// `"<key>_<label>"`: the key of one split case.
fn split_key(key: &String, label: &String) -> (r: String)
    ensures
        r@ == spec_split_key(key@, label@),
{
    proof {
        reveal_strlit("_");
        assert("_"@ =~= seq!['_']);
    }
    let mut r = key.clone();
    r.append("_");
    r.append(label.as_str());
    proof {
        assert(r@ =~= spec_split_key(key@, label@));
    }
    r
}

/// The body the split renders for one select element under case `label`:
/// the matching case, else the `"other"` case, else nothing.
fn select_case_body<'a>(cases: &'a Vec<CaseBranch>, label: &String) -> (r: Option<
    &'a Vec<Element>,
>)
    ensures
        match r {
            Some(b) => b@ == spec_select_replacement(cases@, label@),
            None => spec_select_replacement(cases@, label@) == Seq::<Element>::empty(),
        },
{
    proof {
        lemma_case_index(cases@, label@);
        reveal_strlit("other");
        assert("other"@ =~= spec_other_label());
        lemma_case_index(cases@, spec_other_label());
    }
    match find_case(cases, label.as_str()) {
        Some(i) => Some(&cases[i].body),
        None => {
            match find_case(cases, "other") {
                Some(i) => Some(&cases[i].body),
                None => None,
            }
        },
    }
}

/// The position of the first branch labelled `label`, if any.
fn find_case(cases: &Vec<CaseBranch>, label: &str) -> (r: Option<usize>)
    ensures
        match r {
            Some(i) => i == spec_case_index(cases@, label@) && i < cases@.len(),
            None => spec_case_index(cases@, label@) == -1,
        },
{
    proof {
        lemma_case_index(cases@, label@);
    }
    let n = cases.len();
    let mut i: usize = 0;
    while i < n
        invariant
            n == cases@.len(),
            i <= n,
            forall|j: int| 0 <= j < i ==> (#[trigger] cases@[j]).label@ != label@,
        decreases n - i,
    {
        if str_eq(cases[i].label.as_str(), label) {
            proof {
                lemma_case_index(cases@, label@);
                let x = spec_case_index(cases@, label@);
                assert(!(x < i) && !(x > i));
            }
            return Some(i);
        }
        i += 1;
    }
    None
}

/// The position of the first top-level select element, if any.
fn find_first_select(es: &Vec<Element>) -> (r: Option<usize>)
    ensures
        match r {
            Some(i) => i == spec_first_top_select(es@) && i < es@.len(),
            None => spec_first_top_select(es@) == -1,
        },
{
    proof {
        lemma_first_top_select(es@);
    }
    let n = es.len();
    let mut i: usize = 0;
    while i < n
        invariant
            n == es@.len(),
            i <= n,
            forall|j: int| 0 <= j < i ==> !(#[trigger] es@[j] is Select),
        decreases n - i,
    {
        if matches!(&es[i], Element::Select { .. }) {
            proof {
                lemma_first_top_select(es@);
                let x = spec_first_top_select(es@);
                assert(!(x < i) && !(x > i));
            }
            return Some(i);
        }
        i += 1;
    }
    proof {
        lemma_first_top_select(es@);
    }
    None
}

/// Renders `es` through the shared formatter, skipping any element whose
/// position assignment fails, appending to `out`.
fn render_total(formatter: &mut XCStringFormatter, es: &Vec<Element>, out: &mut String)
    ensures
        final(formatter).mode() == old(formatter).mode(),
        final(out)@ == old(out)@ + spec_render_total_seq(
            old(formatter).tbl(),
            es@,
            old(formatter).mode(),
        ).0,
        final(formatter).tbl() == spec_render_total_seq(
            old(formatter).tbl(),
            es@,
            old(formatter).mode(),
        ).1,
{
    let ghost base = out@;
    let ghost tbl0 = formatter.tbl();
    let ghost mode0 = formatter.mode();
    let ghost mut done: Seq<char> = Seq::empty();
    proof {
        assert(es@.skip(0) =~= es@);
        assert(base + done =~= base);
    }
    let n = es.len();
    let mut i: usize = 0;
    while i < n
        invariant
            n == es@.len(),
            i <= n,
            tbl0 == old(formatter).tbl(),
            mode0 == old(formatter).mode(),
            base == old(out)@,
            formatter.mode() == mode0,
            out@ == base + done,
            spec_render_total_seq(tbl0, es@, mode0).0 == done + spec_render_total_seq(
                formatter.tbl(),
                es@.skip(i as int),
                mode0,
            ).0,
            spec_render_total_seq(tbl0, es@, mode0).1 == spec_render_total_seq(
                formatter.tbl(),
                es@.skip(i as int),
                mode0,
            ).1,
        decreases n - i,
    {
        let ghost rest = es@.skip(i as int);
        let ghost pre = formatter.tbl();
        proof {
            assert(rest[0] == es@[i as int]);
            assert(rest.drop_first() =~= es@.skip(i + 1));
        }
        match formatter.format(&es[i]) {
            Ok(piece) => {
                out.append(piece.as_str());
                proof {
                    assert(spec_render_total(pre, rest[0], mode0) == (
                        piece@,
                        formatter.tbl(),
                    ));
                    let r2 = spec_render_total_seq(formatter.tbl(), es@.skip(i + 1), mode0);
                    assert(done + (piece@ + r2.0) =~= (done + piece@) + r2.0);
                    assert(base + (done + piece@) =~= (base + done) + piece@);
                    done = done + piece@;
                }
            },
            Err(_) => {
                proof {
                    assert(spec_render_total(pre, rest[0], mode0) == (
                        Seq::<char>::empty(),
                        formatter.tbl(),
                    ));
                    let r2 = spec_render_total_seq(formatter.tbl(), es@.skip(i + 1), mode0);
                    assert(done + (Seq::<char>::empty() + r2.0) =~= done + r2.0);
                }
            },
        }
        i += 1;
    }
    proof {
        assert(es@.skip(n as int) =~= Seq::<Element>::empty());
        let r = spec_render_total_seq(formatter.tbl(), es@.skip(n as int), mode0);
        assert(r.0 =~= Seq::<char>::empty());
        assert(done + Seq::<char>::empty() =~= done);
    }
}

/// A collected variable list has no repeats.
pub proof fn lemma_vars_no_dup(cfg: ParserConfig, text: Seq<char>)
    ensures
        spec_vars_of(cfg, text) matches Some(v) ==> v.no_duplicates(),
{
    match spec_parse(cfg, text) {
        Some(es) => {
            crate::ast::lemma_collect_seq_no_dup(Seq::empty(), es);
        },
        None => {},
    }
}

/// Two duplicate-free variable lists with the same underlying set raise no
/// mismatch against each other.
proof fn lemma_mismatch_none(key: Seq<char>, locale: Seq<char>, cur: Seq<Seq<char>>, refs: Seq<Seq<char>>)
    requires
        cur.no_duplicates(),
        refs.no_duplicates(),
        cur.to_set() == refs.to_set(),
    ensures
        spec_locale_mismatch(key, locale, cur, refs) is None,
{
    broadcast use vstd::set::group_set_axioms;

    cur.unique_seq_to_set();
    refs.unique_seq_to_set();
    assert(cur.len() == refs.len());
    lemma_first_absent(cur, refs);
    lemma_first_absent(refs, cur);
    if spec_first_absent(cur, refs) >= 0 {
        let j = spec_first_absent(cur, refs);
        assert(cur.to_set().contains(cur[j]));
        assert(refs.to_set().contains(cur[j]));
    }
    if spec_first_absent(refs, cur) >= 0 {
        let j = spec_first_absent(refs, cur);
        assert(refs.to_set().contains(refs[j]));
        assert(cur.to_set().contains(refs[j]));
    }
}

/// Validation walks past every locale whose variable set matches the
/// reference set.
proof fn lemma_validate_from_skips_consistent(
    cfg: ParserConfig,
    key: Seq<char>,
    locales: Seq<(Seq<char>, MsgValM)>,
    j: int,
    i: int,
    refs: Seq<Seq<char>>,
)
    requires
        1 <= j <= i <= locales.len(),
        refs.no_duplicates(),
        forall|k: int|
            j <= k < i ==> ((#[trigger] spec_vars_of(cfg, locales[k].1.value)) matches Some(v)
                && v.to_set() == refs.to_set()),
    ensures
        spec_validate_from(cfg, key, locales, j, refs) == spec_validate_from(
            cfg,
            key,
            locales,
            i,
            refs,
        ),
    decreases i - j,
{
    if j < i {
        assert((spec_vars_of(cfg, locales[j].1.value) matches Some(v) && v.to_set()
            == refs.to_set()));
        let cur = spec_vars_of(cfg, locales[j].1.value)->Some_0;
        lemma_vars_no_dup(cfg, locales[j].1.value);
        lemma_mismatch_none(key, locales[j].0, cur, refs);
        lemma_validate_from_skips_consistent(cfg, key, locales, j + 1, i, refs);
    }
}

/// Law: a message whose locales' recursively collected variable sets are
/// all identical passes cross-locale validation.
pub proof fn lemma_validation_accepts_consistent(
    cfg: ParserConfig,
    key: Seq<char>,
    locales: Seq<(Seq<char>, MsgValM)>,
)
    requires
        forall|i: int|
            0 <= i < locales.len() ==> (#[trigger] spec_vars_of(cfg, locales[i].1.value))
                is Some,
        forall|i: int|
            0 <= i < locales.len() ==> ((#[trigger] spec_vars_of(
                cfg,
                locales[i].1.value,
            ))->Some_0).to_set() == (spec_vars_of(cfg, locales[0].1.value)->Some_0).to_set(),
    ensures
        spec_validate(cfg, key, locales) is None,
{
    if locales.len() > 0 {
        assert(spec_vars_of(cfg, locales[0].1.value) is Some);
        let refs = spec_vars_of(cfg, locales[0].1.value)->Some_0;
        lemma_vars_no_dup(cfg, locales[0].1.value);
        lemma_validate_from_skips_consistent(cfg, key, locales, 1, locales.len() as int, refs);
    }
}

/// Law: a single deviating locale is named. When every locale parses,
/// every locale but the one at index `i` collects the same variable set as
/// the first, and locale `i`'s set differs, validation fails, the error
/// names locale `i`, and a name-mismatch or missing-variable error names a
/// variable on which the two sets disagree.
pub proof fn lemma_validation_names_deviating_locale(
    cfg: ParserConfig,
    key: Seq<char>,
    locales: Seq<(Seq<char>, MsgValM)>,
    i: int,
)
    requires
        1 <= i < locales.len(),
        forall|k: int|
            0 <= k < locales.len() ==> (#[trigger] spec_vars_of(cfg, locales[k].1.value))
                is Some,
        forall|k: int|
            0 <= k < locales.len() && k != i ==> ((#[trigger] spec_vars_of(
                cfg,
                locales[k].1.value,
            ))->Some_0).to_set() == (spec_vars_of(cfg, locales[0].1.value)->Some_0).to_set(),
        (spec_vars_of(cfg, locales[i].1.value)->Some_0).to_set() != (spec_vars_of(
            cfg,
            locales[0].1.value,
        )->Some_0).to_set(),
    ensures
        spec_validate(cfg, key, locales) matches Some(e) && (match e {
            ErrM::VariableCountMismatch { locale, .. } => locale == locales[i].0,
            ErrM::VariableNameMismatch { locale, variable, .. } => {
                &&& locale == locales[i].0
                &&& (spec_vars_of(cfg, locales[i].1.value)->Some_0).to_set().contains(variable)
                &&& !(spec_vars_of(cfg, locales[0].1.value)->Some_0).to_set().contains(variable)
            },
            ErrM::MissingVariable { locale, variable, .. } => {
                &&& locale == locales[i].0
                &&& !(spec_vars_of(cfg, locales[i].1.value)->Some_0).to_set().contains(variable)
                &&& (spec_vars_of(cfg, locales[0].1.value)->Some_0).to_set().contains(variable)
            },
            _ => false,
        }),
{
    broadcast use vstd::set::group_set_axioms;

    assert(spec_vars_of(cfg, locales[0].1.value) is Some);
    let refs = spec_vars_of(cfg, locales[0].1.value)->Some_0;
    lemma_vars_no_dup(cfg, locales[0].1.value);
    lemma_validate_from_skips_consistent(cfg, key, locales, 1, i, refs);
    assert(spec_vars_of(cfg, locales[i].1.value) is Some);
    let cur = spec_vars_of(cfg, locales[i].1.value)->Some_0;
    lemma_vars_no_dup(cfg, locales[i].1.value);
    lemma_first_absent(cur, refs);
    lemma_first_absent(refs, cur);
    if spec_locale_mismatch(key, locales[i].0, cur, refs) is None {
        assert(spec_first_absent(cur, refs) == -1 && spec_first_absent(refs, cur) == -1);
        assert forall|x: Seq<char>| cur.to_set().contains(x) == refs.to_set().contains(x) by {
            if cur.contains(x) {
                let k = choose|k: int| 0 <= k < cur.len() && cur[k] == x;
                assert(refs.contains(cur[k]));
            }
            if refs.contains(x) {
                let k = choose|k: int| 0 <= k < refs.len() && refs[k] == x;
                assert(cur.contains(refs[k]));
            }
        }
        assert(cur.to_set() =~= refs.to_set());
    }
    let m = spec_locale_mismatch(key, locales[i].0, cur, refs);
    match m {
        Some(e) => {
            match e {
                ErrM::VariableNameMismatch { .. } => {
                    let j = spec_first_absent(cur, refs);
                    assert(cur.contains(cur[j]));
                },
                ErrM::MissingVariable { .. } => {
                    let j = spec_first_absent(refs, cur);
                    assert(refs.contains(refs[j]));
                },
                _ => {},
            }
        },
        None => {},
    }
}

/// The models of a batch of input messages.
pub open spec fn msgs_model(msgs: Seq<LocalizableICUMessage>) -> Seq<MsgM> {
    msgs.map_values(|m: LocalizableICUMessage| m.model())
}

/// The models of one message's worth of produced `(key, entry)` pairs.
pub open spec fn pairs_model(pairs: Seq<(String, XCString)>) -> Seq<(Seq<char>, EntryM)> {
    pairs.map_values(|p: (String, XCString)| (p.0@, p.1.model()))
}

/// Whether every produced entry is well-formed.
pub open spec fn pairs_wf(pairs: Seq<(String, XCString)>) -> bool {
    forall|i: int| 0 <= i < pairs.len() ==> (#[trigger] pairs[i]).1.wf()
}

} // verus!
