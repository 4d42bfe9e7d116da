//! Parsers for the values of single headers.

pub mod cseq;
