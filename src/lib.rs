// A rule engine for sorting inventory items: a small expression language
// (parser, vocabulary check, evaluator over exact decimals), the engine that
// applies rules to an item's held and flagged states and picks the fewest
// real clicks, and the decisions that drive a scan of a scrolling grid.

pub mod decimal;
pub mod geometry;
pub mod coordinate;
pub mod converter;
pub mod expr;
pub mod grammar;
pub mod parse;
pub mod eval;
pub mod rule;
pub mod metadata;
pub mod artifact;
pub mod actuator;
pub mod color;
pub mod navigation;
pub mod identify;
pub mod session;
pub mod typing;
