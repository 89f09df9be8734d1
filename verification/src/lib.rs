//! Conversion of ICU-style localization message templates into a string
//! catalog document: positional placeholder assignment, plural/select
//! substitution tables, cross-locale variable validation, and select
//! splitting.

pub mod ast;
pub mod converter;
pub mod errors;
pub mod models;
pub mod ordered_map;
pub mod parse;
pub mod text;
pub mod xcstrings;
