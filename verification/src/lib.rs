//! A verified FIGlet engine: parsing a FIGlet font definition (a
//! line-oriented ASCII-art font format) into an in-memory font table, and
//! rendering text into multi-line ASCII-art banners with that table.

pub mod decorate;
pub mod figure;
pub mod font;
pub mod glyph;
pub mod header;
pub mod standard_font;
pub mod text;

pub use decorate::link_in_bio;
pub use figure::FIGure;
pub use font::FIGfont;
pub use glyph::FIGcharacter;
pub use header::HeaderLine;
