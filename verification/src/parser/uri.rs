//! The request URI: `sip:user@host:port` or `sips:user@host:port`.

use crate::parser::common::sip_chars::{all_in, is_run, lemma_run_end, run_end, scan, CharClass};
use crate::text::{
    begins_with, decimal_text, decimal_value, is_number, lemma_decimal_round_trip, parse_decimal,
    to_chars,
};
use crate::SipError;
use vstd::prelude::*;
use vstd::string::StrSliceExecFns;

verus! {

/// A SIP URI.
#[derive(Debug, Clone, PartialEq, Eq)]
pub struct Uri {
    /// The display name in front of the URI; the parser finds none.
    pub display_name: Option<String>,
    /// `sip` or `sips`.
    pub scheme: String,
    /// The user; never empty.
    pub user: String,
    /// The host; never empty and free of colons.
    pub host: String,
    /// The port.
    pub port: u16,
    /// Parameters behind the port; the parser finds none.
    pub params: Option<Vec<(String, String)>>,
}

/// What a URI text is made of.
pub struct UriParts {
    pub scheme: Seq<char>,
    pub user: Seq<char>,
    pub host: Seq<char>,
    pub port: nat,
}

impl View for Uri {
    type V = UriParts;

    open spec fn view(&self) -> UriParts {
        UriParts { scheme: self.scheme@, user: self.user@, host: self.host@, port: self.port as nat }
    }
}

/// The length of the scheme prefix of `input`, colon included; zero if it
/// has none. `sip:` is tried first, then `sips:`.
pub open spec fn scheme_len(input: Seq<char>) -> int {
    if "sip:"@.is_prefix_of(input) {
        4
    } else if "sips:"@.is_prefix_of(input) {
        5
    } else {
        0
    }
}

/// The parts of a URI text, if it is one.
///
/// After the scheme, the user runs up to the first `@` and the host from
/// there up to the first colon; what follows that colon is the port, a
/// decimal number of at most 65535. So the text behind the `@` holds exactly
/// one colon, and a host with a colon in it (an IPv6 literal) is no URI.
/// User and host must not be empty.
pub open spec fn uri_parts(input: Seq<char>) -> Option<UriParts> {
    let user_start = scheme_len(input);
    let at = run_end(input, user_start, CharClass::Except('@'));
    if user_start == 0 || at == user_start || at >= input.len() {
        None
    } else {
        let colon = run_end(input, at + 1, CharClass::Except(':'));
        let port = input.subrange(colon + 1, input.len() as int);
        if colon == at + 1 || colon >= input.len() || !is_number(port) || decimal_value(port)
            > 65535 {
            None
        } else {
            Some(
                UriParts {
                    scheme: input.subrange(0, user_start - 1),
                    user: input.subrange(user_start, at),
                    host: input.subrange(at + 1, colon),
                    port: decimal_value(port),
                },
            )
        }
    }
}

/// The text of a URI with the given parts.
pub open spec fn uri_text(parts: UriParts) -> Seq<char> {
    parts.scheme + ":"@ + parts.user + "@"@ + parts.host + ":"@ + decimal_text(parts.port)
}

/// Whether the parts can be those of a URI: the scheme is `sip` or `sips`,
/// the user is not empty and holds no `@`, the host is not empty and holds
/// no colon, and the port is at most 65535.
pub open spec fn valid_uri_parts(parts: UriParts) -> bool {
    &&& parts.scheme == "sip"@ || parts.scheme == "sips"@
    &&& parts.user.len() > 0
    &&& all_in(parts.user, CharClass::Except('@'))
    &&& parts.host.len() > 0
    &&& all_in(parts.host, CharClass::Except(':'))
    &&& parts.port <= 65535
}

impl Uri {
    /// Parses a URI text.
    ///
    /// Fails with `InvalidUri` exactly when the text is no URI: when it
    /// starts with neither `sip:` nor `sips:`, has no `@` or nothing in front
    /// of it, has no colon behind the `@` or nothing in front of that, or
    /// when what follows that colon is not a decimal number of at most 65535.
    pub fn parse(input: &str) -> (r: Result<Uri, SipError>)
        ensures
            match r {
                Ok(uri) => uri_parts(input@) == Some(uri@) && valid_uri_parts(uri@)
                    && uri.display_name is None && uri.params is None,
                Err(e) => e == SipError::InvalidUri && uri_parts(input@) is None,
            },
    {
        let chars = to_chars(input);
        proof {
            reveal_strlit("sip:");
            reveal_strlit("sips:");
            lemma_uri_parts_valid(input@);
        }
        let user_start: usize = if begins_with(&chars, "sip:") {
            4
        } else if begins_with(&chars, "sips:") {
            5
        } else {
            return Err(SipError::InvalidUri);
        };
        let at = scan(&chars, user_start, CharClass::Except('@'));
        if at == user_start || at >= chars.len() {
            return Err(SipError::InvalidUri);
        }
        let colon = scan(&chars, at + 1, CharClass::Except(':'));
        if colon == at + 1 || colon >= chars.len() {
            return Err(SipError::InvalidUri);
        }
        match parse_decimal(&chars, colon + 1, chars.len(), 65535) {
            None => Err(SipError::InvalidUri),
            Some(port) => Ok(
                Uri {
                    display_name: None,
                    scheme: input.substring_char(0, user_start - 1).to_owned(),
                    user: input.substring_char(user_start, at).to_owned(),
                    host: input.substring_char(at + 1, colon).to_owned(),
                    port: port as u16,
                    params: None,
                },
            ),
        }
    }
}

/// The text `scheme:user@host:port` is read back into the parts that it was
/// made of.
pub proof fn lemma_uri_round_trip(parts: UriParts)
    requires
        valid_uri_parts(parts),
    ensures
        uri_parts(uri_text(parts)) == Some(parts),
{
    reveal_strlit("sip");
    reveal_strlit("sips");
    reveal_strlit("sip:");
    reveal_strlit("sips:");
    reveal_strlit(":");
    reveal_strlit("@");
    let text = uri_text(parts);
    let digits = decimal_text(parts.port);
    lemma_decimal_round_trip(parts.port);
    let start: int = (parts.scheme.len() + 1) as int;
    let at: int = start + parts.user.len();
    let colon: int = at + 1 + parts.host.len();
    assert(text.len() == colon + 1 + digits.len());
    assert forall|i: int| 0 <= i < start - 1 implies text[i] == parts.scheme[i] by {}
    assert(text[start - 1] == ':');
    assert forall|i: int| start <= i < at implies text[i] == parts.user[i - start] by {}
    assert(text[at] == '@');
    assert forall|i: int| at < i < colon implies text[i] == parts.host[i - at - 1] by {}
    assert(text[colon] == ':');
    if parts.scheme == "sip"@ {
        assert("sip:"@ =~= text.subrange(0, 4));
    } else {
        assert(text[3] == 's');
        assert("sip:"@[3] == ':');
        if "sip:"@.is_prefix_of(text) {
            assert(text.subrange(0, 4)[3] == text[3]);
        }
        assert("sips:"@ =~= text.subrange(0, 5));
    }
    assert(scheme_len(text) == start);
    assert(is_run(text, start, CharClass::Except('@'), at));
    lemma_run_end(text, start, CharClass::Except('@'), at);
    assert(is_run(text, at + 1, CharClass::Except(':'), colon));
    lemma_run_end(text, at + 1, CharClass::Except(':'), colon);
    assert(text.subrange(colon + 1, text.len() as int) =~= digits);
    assert(text.subrange(0, start - 1) =~= parts.scheme);
    assert(text.subrange(start, at) =~= parts.user);
    assert(text.subrange(at + 1, colon) =~= parts.host);
}

/// What is read from a URI text is valid: the scheme is `sip` or `sips`,
/// user and host are not empty, the user holds no `@` and the host no
/// colon, and the port is at most 65535.
pub proof fn lemma_uri_parts_valid(input: Seq<char>)
    ensures
        uri_parts(input) matches Some(parts) ==> valid_uri_parts(parts),
{
    if let Some(parts) = uri_parts(input) {
        reveal_strlit("sip");
        reveal_strlit("sips");
        reveal_strlit("sip:");
        reveal_strlit("sips:");
        let start = scheme_len(input);
        let at = run_end(input, start, CharClass::Except('@'));
        let colon = run_end(input, at + 1, CharClass::Except(':'));
        lemma_run_end(input, start, CharClass::Except('@'), at);
        lemma_run_end(input, at + 1, CharClass::Except(':'), colon);
        if start == 4 {
            assert(parts.scheme =~= "sip:"@.subrange(0, 3));
            assert(parts.scheme =~= "sip"@);
        } else {
            assert(parts.scheme =~= "sips:"@.subrange(0, 4));
            assert(parts.scheme =~= "sips"@);
        }
        assert forall|i: int| 0 <= i < parts.user.len() implies CharClass::Except('@').holds(
            #[trigger] parts.user[i],
        ) by {
            assert(parts.user[i] == input[start + i]);
        }
        assert forall|i: int| 0 <= i < parts.host.len() implies CharClass::Except(':').holds(
            #[trigger] parts.host[i],
        ) by {
            assert(parts.host[i] == input[at + 1 + i]);
        }
    }
}

} // verus!
