//! Literary clock: renders a quotation that mentions a time of day as
//! word-wrapped, ANSI-coloured terminal text.

pub mod colour;
pub mod cutting;
pub mod escapes;
pub mod formatter;
pub mod markup;
pub mod minute;
pub mod substitution;
pub mod text;
pub mod timestamp;
pub mod wrapping;
