//! The substitution builder: given one locale's top-level elements, builds
//! the catalog substitution table for its plural and select constructs.
//! Each such construct, at rank `i` among them in source order, gets
//! argument number `i + 1`; plural case labels are normalized against the
//! target format's taxonomy, select labels are kept verbatim.

use vstd::prelude::*;

use crate::ast::{CaseBranch, Element};
use crate::converter::formatter::{spec_format_seq, FormatterMode, XCStringFormatter};
use crate::errors::{ConvertError, ErrM};
use crate::ordered_map::{
    lemma_insert_values, lemma_key_index_bounds, lemma_key_index_same_keys, spec_insert, OrderedMap,
};
use crate::text::str_eq;
use crate::xcstrings::{
    substitutions_model, variations_model, LocalizationState, StringUnit, SubM, Substitution,
    VariationType, VariationValue,
};

verus! {

/// A plural case label the target format accepts.
#[derive(Debug)]
pub enum KeyFormat {
    Zero,
    One,
    Other,
}

pub open spec fn spec_label_zero() -> Seq<char> {
    seq!['z', 'e', 'r', 'o']
}

pub open spec fn spec_label_one() -> Seq<char> {
    seq!['o', 'n', 'e']
}

pub open spec fn spec_label_two() -> Seq<char> {
    seq!['t', 'w', 'o']
}

pub open spec fn spec_label_few() -> Seq<char> {
    seq!['f', 'e', 'w']
}

pub open spec fn spec_label_many() -> Seq<char> {
    seq!['m', 'a', 'n', 'y']
}

pub open spec fn spec_label_other() -> Seq<char> {
    seq!['o', 't', 'h', 'e', 'r']
}

pub open spec fn spec_label_eq_zero() -> Seq<char> {
    seq!['=', '0']
}

pub open spec fn spec_label_eq_one() -> Seq<char> {
    seq!['=', '1']
}

/// How a plural case label normalizes: `"=0"` and `"=1"` become `"zero"`
/// and `"one"`; `"zero"`, `"one"` and `"other"` pass through; `"two"`,
/// `"few"` and `"many"` are unsupported by the target format; anything
/// else is an invalid key.
pub open spec fn spec_norm_label(l: Seq<char>) -> Result<Seq<char>, ErrM> {
    if l == spec_label_zero() {
        Ok(spec_label_zero())
    } else if l == spec_label_one() {
        Ok(spec_label_one())
    } else if l == spec_label_two() || l == spec_label_few() || l == spec_label_many() {
        Err(ErrM::UnsupportedPluralCategory { label: l })
    } else if l == spec_label_other() {
        Ok(spec_label_other())
    } else if l == spec_label_eq_zero() {
        Ok(spec_label_zero())
    } else if l == spec_label_eq_one() {
        Ok(spec_label_one())
    } else {
        Err(ErrM::InvalidKeyFormat { label: l })
    }
}

impl KeyFormat {
    /// The label this category writes into the catalog.
    pub open spec fn label_spec(&self) -> Seq<char> {
        match self {
            KeyFormat::Zero => spec_label_zero(),
            KeyFormat::One => spec_label_one(),
            KeyFormat::Other => spec_label_other(),
        }
    }

    /// Law: `"=0"` and `"=1"` always normalize to `"zero"` and `"one"`;
    /// `"two"`, `"few"` and `"many"` always fail; everything outside the
    /// taxonomy is rejected. The result is exactly `spec_norm_label`.
    pub fn from_string(key: &String) -> (r: Result<KeyFormat, ConvertError>)
        ensures
            match r {
                Ok(kf) => spec_norm_label(key@) == Ok::<_, ErrM>(kf.label_spec()),
                Err(e) => spec_norm_label(key@) == Err::<Seq<char>, _>(e.model()),
            },
    {
        proof {
            reveal_strlit("zero");
            reveal_strlit("one");
            reveal_strlit("two");
            reveal_strlit("few");
            reveal_strlit("many");
            reveal_strlit("other");
            reveal_strlit("=0");
            reveal_strlit("=1");
            assert("zero"@ =~= spec_label_zero());
            assert("one"@ =~= spec_label_one());
            assert("two"@ =~= spec_label_two());
            assert("few"@ =~= spec_label_few());
            assert("many"@ =~= spec_label_many());
            assert("other"@ =~= spec_label_other());
            assert("=0"@ =~= spec_label_eq_zero());
            assert("=1"@ =~= spec_label_eq_one());
        }
        let k = key.as_str();
        if str_eq(k, "zero") {
            Ok(KeyFormat::Zero)
        } else if str_eq(k, "one") {
            Ok(KeyFormat::One)
        } else if str_eq(k, "two") || str_eq(k, "few") || str_eq(k, "many") {
            Err(ConvertError::UnsupportedPluralCategory { label: key.clone() })
        } else if str_eq(k, "other") {
            Ok(KeyFormat::Other)
        } else if str_eq(k, "=0") {
            Ok(KeyFormat::Zero)
        } else if str_eq(k, "=1") {
            Ok(KeyFormat::One)
        } else {
            Err(ConvertError::InvalidKeyFormat { label: key.clone() })
        }
    }

    /// The normalized label text.
    pub fn to_string(&self) -> (r: String)
        ensures
            r@ == self.label_spec(),
    {
        match self {
            KeyFormat::Zero => {
                proof {
                    reveal_strlit("zero");
                    assert("zero"@ =~= spec_label_zero());
                }
                String::from_str("zero")
            },
            KeyFormat::One => {
                proof {
                    reveal_strlit("one");
                    assert("one"@ =~= spec_label_one());
                }
                String::from_str("one")
            },
            KeyFormat::Other => {
                proof {
                    reveal_strlit("other");
                    assert("other"@ =~= spec_label_other());
                }
                String::from_str("other")
            },
        }
    }
}

/// What one case body formats to, in case-body mode against a fresh
/// position table.
pub open spec fn spec_case_value(body: Seq<Element>) -> Result<Seq<char>, ErrM> {
    match spec_format_seq(Seq::empty(), body, FormatterMode::Plural) {
        Ok((o, _)) => Ok(o),
        Err(v) => Err(ErrM::PositionOverflow { variable: v }),
    }
}

/// The variation table of a plural construct: labels normalized, each body
/// formatted independently, first invalid label or failing body aborting
/// the build.
pub open spec fn spec_plural_variations(
    cs: Seq<CaseBranch>,
    acc: Seq<(Seq<char>, Seq<char>)>,
) -> Result<Seq<(Seq<char>, Seq<char>)>, ErrM>
    decreases cs.len(),
{
    if cs.len() == 0 {
        Ok(acc)
    } else {
        match spec_norm_label(cs[0].label@) {
            Err(e) => Err(e),
            Ok(n) => match spec_case_value(cs[0].body@) {
                Err(e) => Err(e),
                Ok(v) => spec_plural_variations(cs.drop_first(), spec_insert(acc, n, v)),
            },
        }
    }
}

/// The variation table of a select construct: labels verbatim, never
/// validated against the plural taxonomy.
pub open spec fn spec_select_variations(
    cs: Seq<CaseBranch>,
    acc: Seq<(Seq<char>, Seq<char>)>,
) -> Result<Seq<(Seq<char>, Seq<char>)>, ErrM>
    decreases cs.len(),
{
    if cs.len() == 0 {
        Ok(acc)
    } else {
        match spec_case_value(cs[0].body@) {
            Err(e) => Err(e),
            Ok(v) => spec_select_variations(cs.drop_first(), spec_insert(acc, cs[0].label@, v)),
        }
    }
}

pub open spec fn spec_lld() -> Seq<char> {
    seq!['l', 'l', 'd']
}

pub open spec fn spec_at() -> Seq<char> {
    seq!['@']
}

/// The whole substitution table over `es`: the plural and select elements
/// in source order, the one of rank `i` (1-based, `rank` continuing the
/// count) getting argument number `i`, keyed by variable name.
pub open spec fn spec_build(
    es: Seq<Element>,
    rank: int,
    acc: Seq<(Seq<char>, SubM)>,
) -> Result<Seq<(Seq<char>, SubM)>, ErrM>
    decreases es.len(),
{
    if es.len() == 0 {
        Ok(acc)
    } else {
        match es[0] {
            Element::Plural { name, cases, .. } => match spec_plural_variations(
                cases@,
                Seq::empty(),
            ) {
                Err(e) => Err(e),
                Ok(vars) => spec_build(
                    es.drop_first(),
                    rank + 1,
                    spec_insert(
                        acc,
                        name@,
                        SubM {
                            arg_num: rank,
                            format_specifier: spec_lld(),
                            is_plural: true,
                            variations: vars,
                        },
                    ),
                ),
            },
            Element::Select { name, cases } => match spec_select_variations(
                cases@,
                Seq::empty(),
            ) {
                Err(e) => Err(e),
                Ok(vars) => spec_build(
                    es.drop_first(),
                    rank + 1,
                    spec_insert(
                        acc,
                        name@,
                        SubM {
                            arg_num: rank,
                            format_specifier: spec_at(),
                            is_plural: false,
                            variations: vars,
                        },
                    ),
                ),
            },
            _ => spec_build(es.drop_first(), rank, acc),
        }
    }
}

/// Taking models of a variation table commutes with insertion.
pub proof fn lemma_variations_model_insert(
    a: Seq<(Seq<char>, VariationValue)>,
    key: Seq<char>,
    vv: VariationValue,
)
    ensures
        variations_model(spec_insert(a, key, vv)) =~= spec_insert(
            variations_model(a),
            key,
            vv.string_unit.value@,
        ),
{
    let m = variations_model(a);
    assert(forall|i: int| 0 <= i < a.len() ==> a[i].0 == #[trigger] m[i].0);
    lemma_key_index_same_keys(a, m, key);
    lemma_key_index_bounds(a, key);
}

/// Taking models of a substitution table commutes with insertion.
pub proof fn lemma_substitutions_model_insert(
    a: Seq<(Seq<char>, Substitution)>,
    key: Seq<char>,
    sub: Substitution,
)
    ensures
        substitutions_model(spec_insert(a, key, sub)) =~= spec_insert(
            substitutions_model(a),
            key,
            sub.model(),
        ),
{
    let m = substitutions_model(a);
    assert(forall|i: int| 0 <= i < a.len() ==> a[i].0 == #[trigger] m[i].0);
    lemma_key_index_same_keys(a, m, key);
    lemma_key_index_bounds(a, key);
}

/// Builds substitution tables for one locale's top-level elements.
pub struct XCStringSubstitutionBuilder {}

impl XCStringSubstitutionBuilder {
    pub fn new() -> XCStringSubstitutionBuilder {
        XCStringSubstitutionBuilder {  }
    }

    /// The variation table of one plural construct's branches. Each case
    /// body is formatted with its own fresh formatter in case-body mode.
    fn build_plural_cases(&self, cases: &Vec<CaseBranch>) -> (r: Result<
        OrderedMap<VariationValue>,
        ConvertError,
    >)
        ensures
            match r {
                Ok(m) => {
                    &&& spec_plural_variations(cases@, Seq::empty()) == Ok::<_, ErrM>(
                        variations_model(m.entries()),
                    )
                    &&& m.wf()
                    &&& forall|i: int|
                        0 <= i < m.entries().len()
                            ==> (#[trigger] m.entries()[i]).1.string_unit.localization_state
                            == LocalizationState::Translated
                },
                Err(e) => spec_plural_variations(cases@, Seq::empty()) == Err::<
                    Seq<(Seq<char>, Seq<char>)>,
                    _,
                >(e.model()),
            },
    {
        let mut m: OrderedMap<VariationValue> = OrderedMap::new();
        let n = cases.len();
        let mut i: usize = 0;
        proof {
            assert(cases@.skip(0) =~= cases@);
            assert(variations_model(m.entries()) =~= Seq::<(Seq<char>, Seq<char>)>::empty());
        }
        while i < n
            invariant
                n == cases@.len(),
                i <= n,
                m.wf(),
                forall|k: int|
                    0 <= k < m.entries().len()
                        ==> (#[trigger] m.entries()[k]).1.string_unit.localization_state
                        == LocalizationState::Translated,
                spec_plural_variations(cases@, Seq::empty()) == spec_plural_variations(
                    cases@.skip(i as int),
                    variations_model(m.entries()),
                ),
            decreases n - i,
        {
            let ghost rest = cases@.skip(i as int);
            proof {
                assert(rest[0] == cases@[i as int]);
                assert(rest.drop_first() =~= cases@.skip(i + 1));
            }
            let case = &cases[i];
            let key_format = KeyFormat::from_string(&case.label)?;
            let mut formatter = XCStringFormatter::new(FormatterMode::Plural);
            let value = formatter.format_batch(&case.body)?;
            let label = key_format.to_string();
            let vv = VariationValue {
                string_unit: StringUnit {
                    localization_state: LocalizationState::Translated,
                    value,
                },
            };
            let ghost vvg = vv;
            let ghost before = m.entries();
            m.insert(label, vv);
            proof {
                lemma_variations_model_insert(before, key_format.label_spec(), vvg);
                lemma_insert_values(before, key_format.label_spec(), vvg);
            }
            i += 1;
        }
        proof {
            assert(cases@.skip(n as int) =~= Seq::<CaseBranch>::empty());
        }
        Ok(m)
    }

    /// The variation table of one select construct's branches: labels kept
    /// verbatim.
    fn build_select_cases(&self, cases: &Vec<CaseBranch>) -> (r: Result<
        OrderedMap<VariationValue>,
        ConvertError,
    >)
        ensures
            match r {
                Ok(m) => {
                    &&& spec_select_variations(cases@, Seq::empty()) == Ok::<_, ErrM>(
                        variations_model(m.entries()),
                    )
                    &&& m.wf()
                    &&& forall|i: int|
                        0 <= i < m.entries().len()
                            ==> (#[trigger] m.entries()[i]).1.string_unit.localization_state
                            == LocalizationState::Translated
                },
                Err(e) => spec_select_variations(cases@, Seq::empty()) == Err::<
                    Seq<(Seq<char>, Seq<char>)>,
                    _,
                >(e.model()),
            },
    {
        let mut m: OrderedMap<VariationValue> = OrderedMap::new();
        let n = cases.len();
        let mut i: usize = 0;
        proof {
            assert(cases@.skip(0) =~= cases@);
            assert(variations_model(m.entries()) =~= Seq::<(Seq<char>, Seq<char>)>::empty());
        }
        while i < n
            invariant
                n == cases@.len(),
                i <= n,
                m.wf(),
                forall|k: int|
                    0 <= k < m.entries().len()
                        ==> (#[trigger] m.entries()[k]).1.string_unit.localization_state
                        == LocalizationState::Translated,
                spec_select_variations(cases@, Seq::empty()) == spec_select_variations(
                    cases@.skip(i as int),
                    variations_model(m.entries()),
                ),
            decreases n - i,
        {
            let ghost rest = cases@.skip(i as int);
            proof {
                assert(rest[0] == cases@[i as int]);
                assert(rest.drop_first() =~= cases@.skip(i + 1));
            }
            let case = &cases[i];
            let mut formatter = XCStringFormatter::new(FormatterMode::Plural);
            let value = formatter.format_batch(&case.body)?;
            let label = case.label.clone();
            let vv = VariationValue {
                string_unit: StringUnit {
                    localization_state: LocalizationState::Translated,
                    value,
                },
            };
            let ghost vvg = vv;
            let ghost before = m.entries();
            m.insert(label, vv);
            proof {
                lemma_variations_model_insert(before, case.label@, vvg);
                lemma_insert_values(before, case.label@, vvg);
            }
            i += 1;
        }
        proof {
            assert(cases@.skip(n as int) =~= Seq::<CaseBranch>::empty());
        }
        Ok(m)
    }

    /// Builds the substitution table for the plural and select elements of
    /// `elements`, in source order; the result is pinned by `spec_build`.
    /// The first invalid case label or failing case body aborts the build.
    pub fn build(&self, elements: &Vec<Element>) -> (r: Result<
        OrderedMap<Substitution>,
        ConvertError,
    >)
        ensures
            match r {
                Ok(m) => {
                    &&& spec_build(elements@, 1, Seq::empty()) == Ok::<_, ErrM>(
                        substitutions_model(m.entries()),
                    )
                    &&& m.wf()
                    &&& forall|i: int| 0 <= i < m.entries().len() ==> (#[trigger] m.entries()[i]).1.wf()
                },
                Err(e) => spec_build(elements@, 1, Seq::empty()) == Err::<
                    Seq<(Seq<char>, SubM)>,
                    _,
                >(e.model()),
            },
    {
        let mut result: OrderedMap<Substitution> = OrderedMap::new();
        let mut count: usize = 0;
        let n = elements.len();
        let mut i: usize = 0;
        proof {
            assert(elements@.skip(0) =~= elements@);
            assert(substitutions_model(result.entries()) =~= Seq::<(Seq<char>, SubM)>::empty());
        }
        while i < n
            invariant
                n == elements@.len(),
                i <= n,
                count <= i,
                result.wf(),
                forall|k: int|
                    0 <= k < result.entries().len() ==> (#[trigger] result.entries()[k]).1.wf(),
                spec_build(elements@, 1, Seq::empty()) == spec_build(
                    elements@.skip(i as int),
                    count as int + 1,
                    substitutions_model(result.entries()),
                ),
            decreases n - i,
        {
            let ghost rest = elements@.skip(i as int);
            proof {
                assert(rest[0] == elements@[i as int]);
                assert(rest.drop_first() =~= elements@.skip(i + 1));
            }
            match &elements[i] {
                Element::Plural { name, cases, .. } => {
                    let variations = self.build_plural_cases(cases)?;
                    let arg_num = count + 1;
                    let sub = Substitution {
                        arg_num,
                        format_specifier: lld_specifier(),
                        variations: VariationType::Plural(variations),
                    };
                    let ghost subg = sub;
                    let ghost before = result.entries();
                    result.insert(name.clone(), sub);
                    proof {
                        lemma_substitutions_model_insert(before, name@, subg);
                        lemma_insert_values(before, name@, subg);
                    }
                    count = arg_num;
                },
                Element::Select { name, cases } => {
                    let variations = self.build_select_cases(cases)?;
                    let arg_num = count + 1;
                    let sub = Substitution {
                        arg_num,
                        format_specifier: at_specifier(),
                        variations: VariationType::Select(variations),
                    };
                    let ghost subg = sub;
                    let ghost before = result.entries();
                    result.insert(name.clone(), sub);
                    proof {
                        lemma_substitutions_model_insert(before, name@, subg);
                        lemma_insert_values(before, name@, subg);
                    }
                    count = arg_num;
                },
                _ => {},
            }
            i += 1;
        }
        proof {
            assert(elements@.skip(n as int) =~= Seq::<Element>::empty());
        }
        Ok(result)
    }
}

fn lld_specifier() -> (r: String)
    ensures
        r@ == spec_lld(),
{
    proof {
        reveal_strlit("lld");
        assert("lld"@ =~= spec_lld());
    }
    String::from_str("lld")
}

fn at_specifier() -> (r: String)
    ensures
        r@ == spec_at(),
{
    proof {
        reveal_strlit("@");
        assert("@"@ =~= spec_at());
    }
    String::from_str("@")
}

} // verus!
