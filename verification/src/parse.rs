//! The boundary to the external ICU template parser. The parser is a black
//! box that turns a message string into an ordered tree of typed elements;
//! everything the conversion core reads of that tree is carried over into
//! the library's own `Element` form here, one node for one node.

use vstd::prelude::*;

use icu_messageformat_parser::{AstElement, Parser, ParserOptions};

use crate::ast::{CaseBranch, Element};
use crate::models::ParserConfig;

verus! {

#[verifier::external_type_specification]
#[verifier::external_body]
pub struct ExAstElement<'s>(AstElement<'s>);

/// The element tree the external parser produces for `text` under the given
/// flags, with the skeleton, location and locale options all off — `None`
/// when the text does not parse. The parser reads nothing but its input, so
/// the tree is a function of these arguments alone.
pub uninterp spec fn parse_of(
    text: Seq<char>,
    ignore_tag: bool,
    requires_other_clause: bool,
) -> Option<Seq<Element>>;

/// Relies on `icu_messageformat_parser::Parser::{new, parse}`: parsing is
/// deterministic in the message text and the options, and yields the
/// element tree that `convert_element` carries over node for node.
#[verifier::external_body]
pub(crate) fn parse_message(text: &str, cfg: &ParserConfig) -> (r: Result<Vec<Element>, ()>)
    ensures
        match r {
            Ok(es) => parse_of(text@, cfg.ignore_tag, cfg.requires_other_clause) == Some(es@),
            Err(_) => parse_of(text@, cfg.ignore_tag, cfg.requires_other_clause) is None,
        },
{
    let options = ParserOptions::new(cfg.ignore_tag, cfg.requires_other_clause, false, false, None);
    let mut parser = Parser::new(text, &options);
    match parser.parse() {
        Ok(ast) => Ok(convert_elements(&ast)),
        Err(_) => Err(()),
    }
}

/// Relies on the shape of `icu_messageformat_parser::AstElement`: carries a
/// parsed tree over element by element.
#[verifier::external_body]
fn convert_elements(ast: &[AstElement]) -> (r: Vec<Element>) {
    ast.iter().map(convert_element).collect()
}

/// Relies on the shape of `icu_messageformat_parser::AstElement`: one arm
/// per variant, moving the fields the conversion core reads. Time and tag
/// nodes are pass-through kinds.
#[verifier::external_body]
fn convert_element(e: &AstElement) -> (r: Element) {
    match e {
        AstElement::Literal { value, .. } => Element::Literal { text: value.clone() },
        AstElement::Argument { value, .. } => Element::Argument { name: value.clone() },
        AstElement::Number { value, .. } => Element::Number { name: value.clone() },
        AstElement::Date { value, .. } => Element::Date { name: value.clone() },
        AstElement::Time { .. } => Element::Other,
        AstElement::Select { value, .. } => Element::Select { name: value.clone(), cases: convert_cases(e) },
        AstElement::Plural { value, offset, .. } => Element::Plural { name: value.clone(), offset: *offset, cases: convert_cases(e) },
        AstElement::Pound(_) => Element::Pound,
        AstElement::Tag { .. } => Element::Other,
    }
}

/// Relies on the shape of the parser's plural/select option lists: each
/// declared case becomes a branch, label and body, in declaration order.
#[verifier::external_body]
fn convert_cases(e: &AstElement) -> (r: Vec<CaseBranch>) {
    let options = match e {
        AstElement::Select { options, .. } => &options.0,
        AstElement::Plural { options, .. } => &options.0,
        _ => return Vec::new(),
    };
    options.iter().map(
        |(label, opt)| CaseBranch {
            label: (*label).to_string(),
            body: opt.value.iter().map(convert_element).collect(),
        },
    ).collect()
}

} // verus!
