//! Expansion of a `clone!(...)` invocation: a comma-separated list of items,
//! each a bare identifier, a field access or a `name = source` assignment,
//! becomes one `let name = source.clone();` statement per item, in order.
//!
//! The library works on a plain model of the invocation's tokens: the item
//! grammar lives in [`items`], the statement emitter in [`emit`], and the
//! laws that tie the two together in [`laws`].

pub mod emit;
pub mod items;
pub mod laws;
pub mod token;

pub use emit::{clone, emit, emit_binding};
pub use items::{decide_item, item_shape, parse_item, parse_items, split_items, CloneError, CloneItem};



pub use token::{Delimiter, Token};
