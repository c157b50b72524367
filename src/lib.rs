//! Width-aware text helpers for a weather report: comma-aware address
//! truncation, display-width padding and superscript/subscript numerals.
pub mod address;
pub mod numerals;
pub mod padding;

pub use address::trunc_address;
pub use numerals::style_number;
pub use padding::pad_string_to_width;
