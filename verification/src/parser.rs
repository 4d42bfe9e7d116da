//! The SIP request parser.

pub mod common;
pub mod header;
pub mod headers;
pub mod request;
pub mod uri;

pub use header::Header;
pub use headers::cseq::CSeq;
pub use request::{ReqDirection, ReqMessage, ReqMethod, ResType, SipParseError};
pub use uri::Uri;
