//! Source positions counted in grapheme clusters: a text is split once into
//! user-perceived characters, and locations, ranges and line/column queries
//! are answered over that split without copying the text.
pub mod laws;
pub mod location;
pub mod parse;
pub mod segment_index;
pub mod source;
pub mod span;
pub mod text;

pub use location::{LocatedSegment, Location};
pub use source::Source;
pub use span::{Span, SpanContent};
