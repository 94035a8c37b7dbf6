//! Small string helpers.

pub use crate::text::truncate_chars;
pub use crate::charts::bar_fill_len;
