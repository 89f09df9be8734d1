//! The conversion pipeline: the positional formatter, the substitution
//! builder, and the converter that drives them over a whole batch.

pub mod formatter;
pub mod substitution_builder;
pub mod xcstring_converter;

pub use xcstring_converter::XCStringConverter;
