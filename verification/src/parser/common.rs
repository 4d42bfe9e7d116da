//! Building blocks shared by the parsers.

pub mod sip_chars;
