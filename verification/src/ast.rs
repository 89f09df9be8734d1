//! The parsed form of one locale's message template: an ordered sequence of
//! typed elements, as the external template parser hands it over.

use vstd::prelude::*;

verus! {

/// One branch of a plural or select construct: its case label and the
/// elements of its body.
pub struct CaseBranch {
    pub label: String,
    pub body: Vec<Element>,
}

/// One element of a parsed message template. `Other` stands for every
/// pass-through kind (markup tags, time references) that conversion
/// ignores: such an element renders to empty text and references no
/// variable.
pub enum Element {
    Literal { text: String },
    Argument { name: String },
    Number { name: String },
    Date { name: String },
    Plural { name: String, offset: i64, cases: Vec<CaseBranch> },
    Select { name: String, cases: Vec<CaseBranch> },
    Pound,
    Other,
}

/// `acc` extended with `v`, unless `v` is already present: first-occurrence
/// order with no duplicates.
pub open spec fn spec_add_var(acc: Seq<Seq<char>>, v: Seq<char>) -> Seq<Seq<char>> {
    if acc.contains(v) {
        acc
    } else {
        acc.push(v)
    }
}

/// The variable names referenced by `e`, appended to `acc` in
/// first-occurrence order. Plural and select branches are walked
/// recursively.
pub open spec fn spec_collect_elem(acc: Seq<Seq<char>>, e: Element) -> Seq<Seq<char>>
    decreases e, 1int,
{
    match e {
        Element::Literal { .. } => acc,
        Element::Argument { name } => spec_add_var(acc, name@),
        Element::Number { name } => spec_add_var(acc, name@),
        Element::Date { name } => spec_add_var(acc, name@),
        Element::Plural { name, cases, .. } => spec_collect_cases(spec_add_var(acc, name@), cases@),
        Element::Select { name, cases } => spec_collect_cases(spec_add_var(acc, name@), cases@),
        Element::Pound => acc,
        Element::Other => acc,
    }
}

/// The variable names referenced anywhere in the branches `cs`, appended to
/// `acc` in first-occurrence order.
pub open spec fn spec_collect_cases(acc: Seq<Seq<char>>, cs: Seq<CaseBranch>) -> Seq<Seq<char>>
    decreases cs, 0int,
{
    if cs.len() == 0 {
        acc
    } else {
        spec_collect_cases(spec_collect_seq(acc, cs[0].body@), cs.drop_first())
    }
}

/// The variable names referenced anywhere in the elements `es`, appended to
/// `acc` in first-occurrence order.
pub open spec fn spec_collect_seq(acc: Seq<Seq<char>>, es: Seq<Element>) -> Seq<Seq<char>>
    decreases es, 2int,
{
    if es.len() == 0 {
        acc
    } else {
        spec_collect_seq(spec_collect_elem(acc, es[0]), es.drop_first())
    }
}

/// Adding a variable keeps the list duplicate-free and makes its set the
/// old set with the variable added.
pub proof fn lemma_add_var(acc: Seq<Seq<char>>, v: Seq<char>)
    ensures
        acc.no_duplicates() ==> spec_add_var(acc, v).no_duplicates(),
        spec_add_var(acc, v).to_set() =~= acc.to_set().insert(v),
        forall|x: Seq<char>| spec_add_var(acc, v).contains(x) == (acc.contains(x) || x == v),
{
    broadcast use vstd::seq_lib::group_seq_properties;

    if !acc.contains(v) {
        if acc.no_duplicates() {
            assert forall|i: int, j: int|
                0 <= i < j < acc.push(v).len() implies acc.push(v)[i] != acc.push(v)[j] by {
                if j == acc.len() {
                    assert(acc.contains(acc[i]));
                }
            }
        }
        assert forall|x: Seq<char>|
            acc.push(v).contains(x) == (acc.contains(x) || x == v) by {
            if acc.push(v).contains(x) {
                let k = choose|k: int| 0 <= k < acc.push(v).len() && acc.push(v)[k] == x;
                if k < acc.len() {
                    assert(acc[k] == x);
                }
            }
            if acc.contains(x) {
                let k = choose|k: int| 0 <= k < acc.len() && acc[k] == x;
                assert(acc.push(v)[k] == x);
            }
            if x == v {
                assert(acc.push(v)[acc.len() as int] == x);
            }
        }
    }
}

/// Collection only appends: the result stays duplicate-free.
pub proof fn lemma_collect_elem_no_dup(acc: Seq<Seq<char>>, e: Element)
    requires
        acc.no_duplicates(),
    ensures
        spec_collect_elem(acc, e).no_duplicates(),
    decreases e, 1int,
{
    match e {
        Element::Argument { name } => lemma_add_var(acc, name@),
        Element::Number { name } => lemma_add_var(acc, name@),
        Element::Date { name } => lemma_add_var(acc, name@),
        Element::Plural { name, cases, .. } => {
            lemma_add_var(acc, name@);
            lemma_collect_cases_no_dup(spec_add_var(acc, name@), cases@);
        },
        Element::Select { name, cases } => {
            lemma_add_var(acc, name@);
            lemma_collect_cases_no_dup(spec_add_var(acc, name@), cases@);
        },
        _ => {},
    }
}

pub proof fn lemma_collect_cases_no_dup(acc: Seq<Seq<char>>, cs: Seq<CaseBranch>)
    requires
        acc.no_duplicates(),
    ensures
        spec_collect_cases(acc, cs).no_duplicates(),
    decreases cs, 0int,
{
    if cs.len() > 0 {
        lemma_collect_seq_no_dup(acc, cs[0].body@);
        lemma_collect_cases_no_dup(spec_collect_seq(acc, cs[0].body@), cs.drop_first());
    }
}

pub proof fn lemma_collect_seq_no_dup(acc: Seq<Seq<char>>, es: Seq<Element>)
    requires
        acc.no_duplicates(),
    ensures
        spec_collect_seq(acc, es).no_duplicates(),
    decreases es, 2int,
{
    if es.len() > 0 {
        lemma_collect_elem_no_dup(acc, es[0]);
        lemma_collect_seq_no_dup(spec_collect_elem(acc, es[0]), es.drop_first());
    }
}

} // verus!
