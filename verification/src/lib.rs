//! Source locations for the nodes of a syntax tree.
//!
//! Every node answers where in the source text it was written. Leaves store
//! their location, composites derive it from their parts, and modifiers that
//! may be left out of the source answer with `None` when they were.

pub mod item;
pub mod misc;
pub mod span;

pub use item::Item;
pub use misc::{Block, Ident, Mutability, Visibility};
pub use span::{enclosing_span, MaybeSpanned, Span, Spanned};
