//! A small command-line argument library: a flag scanner that resolves a
//! fixed schema of four fields (`name`, `count`, `foo`, `max`) from a token
//! list and an optional environment value, together with a decimal numeral
//! codec and a human-readable dump of the resolved record.

pub mod args;
pub mod dump;
pub mod numeral;
pub mod text;
