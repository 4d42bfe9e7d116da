//! The request message: its method, its target, its headers and its body.

use crate::parser::common::sip_chars::{all_in, is_run, lemma_run_end, run_end, scan, CharClass};
use crate::parser::header::{header_parts, Header};
use crate::parser::headers::cseq::{cseq_parts, CSeq};
use crate::parser::uri::{
    lemma_uri_round_trip, uri_parts, uri_text, valid_uri_parts, Uri, UriParts,
};
use crate::text::{
    append_decimal, decimal_text, lemma_decimal_round_trip, lemma_line_then_rest,
    lemma_next_crlf, lines_of, no_terminator, same_text, spells, split_lines,
    str_views, string_views, to_chars,
};
use crate::SipError;
use vstd::prelude::*;
use vstd::string::StrSliceExecFns;
use vstd::string::StringExecFns;

verus! {

/// What went wrong when a request, or a part of one, was parsed.
#[derive(Debug, Clone)]
pub struct SipParseError {
    /// `1` for a request line or a header value that cannot be parsed, `2`
    /// for a method that is none.
    pub code: u32,
    /// A few words on the failure.
    pub message: Option<String>,
}

impl SipParseError {
    /// An error with the given code and message.
    pub fn new(code: u32, message: Option<String>) -> (e: SipParseError)
        ensures
            e.code == code,
            e.message == message,
    {
        SipParseError { code, message }
    }

    /// What `to_string` gives: `Code: <code>, Message: <message>`, with
    /// `None` for a message that is missing.
    pub open spec fn text(self) -> Seq<char> {
        "Code: "@ + decimal_text(self.code as nat) + ", Message: "@ + match self.message {
            Some(m) => m@,
            None => "None"@,
        }
    }

    /// The error as one line of text.
    pub fn to_string(&self) -> (s: String)
        ensures
            s@ == self.text(),
    {
        let mut s = String::from_str("Code: ");
        append_decimal(&mut s, self.code);
        s.append(", Message: ");
        match &self.message {
            Some(m) => s.append(m.as_str()),
            None => s.append("None"),
        }
        s
    }
}

/// The methods of SIP requests.
#[derive(Debug, Clone, Copy, PartialEq, Eq, Structural)]
pub enum ReqMethod {
    Register,
    Invite,
    Ack,
    Bye,
    Cancel,
    Update,
    Refer,
    Prack,
    Subscribe,
    Notify,
    Publish,
    Message,
    Info,
    Options,
}

impl ReqMethod {
    /// The token that names the method on the wire.
    pub open spec fn text(self) -> Seq<char> {
        match self {
            ReqMethod::Register => "REGISTER"@,
            ReqMethod::Invite => "INVITE"@,
            ReqMethod::Ack => "ACK"@,
            ReqMethod::Bye => "BYE"@,
            ReqMethod::Cancel => "CANCEL"@,
            ReqMethod::Update => "UPDATE"@,
            ReqMethod::Refer => "REFER"@,
            ReqMethod::Prack => "PRACK"@,
            ReqMethod::Subscribe => "SUBSCRIBE"@,
            ReqMethod::Notify => "NOTIFY"@,
            ReqMethod::Publish => "PUBLISH"@,
            ReqMethod::Message => "MESSAGE"@,
            ReqMethod::Info => "INFO"@,
            ReqMethod::Options => "OPTIONS"@,
        }
    }

    /// The method that a token names, if it names one. Tokens are matched
    /// letter for letter, in upper case.
    pub open spec fn from_text(token: Seq<char>) -> Option<ReqMethod> {
        if token == "REGISTER"@ {
            Some(ReqMethod::Register)
        } else if token == "INVITE"@ {
            Some(ReqMethod::Invite)
        } else if token == "ACK"@ {
            Some(ReqMethod::Ack)
        } else if token == "BYE"@ {
            Some(ReqMethod::Bye)
        } else if token == "CANCEL"@ {
            Some(ReqMethod::Cancel)
        } else if token == "UPDATE"@ {
            Some(ReqMethod::Update)
        } else if token == "REFER"@ {
            Some(ReqMethod::Refer)
        } else if token == "PRACK"@ {
            Some(ReqMethod::Prack)
        } else if token == "SUBSCRIBE"@ {
            Some(ReqMethod::Subscribe)
        } else if token == "NOTIFY"@ {
            Some(ReqMethod::Notify)
        } else if token == "PUBLISH"@ {
            Some(ReqMethod::Publish)
        } else if token == "MESSAGE"@ {
            Some(ReqMethod::Message)
        } else if token == "INFO"@ {
            Some(ReqMethod::Info)
        } else if token == "OPTIONS"@ {
            Some(ReqMethod::Options)
        } else {
            None
        }
    }

    /// The token that names the method on the wire.
    pub fn as_str(&self) -> (s: &'static str)
        ensures
            s@ == self.text(),
    {
        match self {
            ReqMethod::Register => "REGISTER",
            ReqMethod::Invite => "INVITE",
            ReqMethod::Ack => "ACK",
            ReqMethod::Bye => "BYE",
            ReqMethod::Cancel => "CANCEL",
            ReqMethod::Update => "UPDATE",
            ReqMethod::Refer => "REFER",
            ReqMethod::Prack => "PRACK",
            ReqMethod::Subscribe => "SUBSCRIBE",
            ReqMethod::Notify => "NOTIFY",
            ReqMethod::Publish => "PUBLISH",
            ReqMethod::Message => "MESSAGE",
            ReqMethod::Info => "INFO",
            ReqMethod::Options => "OPTIONS",
        }
    }

    /// The method's token as an owned text.
    pub fn to_string(&self) -> (s: String)
        ensures
            s@ == self.text(),
    {
        String::from_str(self.as_str())
    }

    /// The method that the characters from `start` to `end` name.
    pub fn from_chars(chars: &Vec<char>, start: usize, end: usize) -> (r: Option<ReqMethod>)
        requires
            start <= end <= chars.len(),
        ensures
            r == Self::from_text(chars@.subrange(start as int, end as int)),
    {
        if spells(chars, start, end, "REGISTER") {
            Some(ReqMethod::Register)
        } else if spells(chars, start, end, "INVITE") {
            Some(ReqMethod::Invite)
        } else if spells(chars, start, end, "ACK") {
            Some(ReqMethod::Ack)
        } else if spells(chars, start, end, "BYE") {
            Some(ReqMethod::Bye)
        } else if spells(chars, start, end, "CANCEL") {
            Some(ReqMethod::Cancel)
        } else if spells(chars, start, end, "UPDATE") {
            Some(ReqMethod::Update)
        } else if spells(chars, start, end, "REFER") {
            Some(ReqMethod::Refer)
        } else if spells(chars, start, end, "PRACK") {
            Some(ReqMethod::Prack)
        } else if spells(chars, start, end, "SUBSCRIBE") {
            Some(ReqMethod::Subscribe)
        } else if spells(chars, start, end, "NOTIFY") {
            Some(ReqMethod::Notify)
        } else if spells(chars, start, end, "PUBLISH") {
            Some(ReqMethod::Publish)
        } else if spells(chars, start, end, "MESSAGE") {
            Some(ReqMethod::Message)
        } else if spells(chars, start, end, "INFO") {
            Some(ReqMethod::Info)
        } else if spells(chars, start, end, "OPTIONS") {
            Some(ReqMethod::Options)
        } else {
            None
        }
    }

    /// Reads a method token.
    ///
    /// Fails, with code 2 and the message `Invalid Request Method`, exactly
    /// when the token names no method.
    pub fn from_str(value: &str) -> (r: Result<ReqMethod, SipParseError>)
        ensures
            match r {
                Ok(m) => Self::from_text(value@) == Some(m),
                Err(e) => {
                    &&& Self::from_text(value@) is None
                    &&& e.code == 2
                    &&& e.message matches Some(m) && m@ == "Invalid Request Method"@
                },
            },
    {
        let chars = to_chars(value);
        assert(chars@.subrange(0, chars@.len() as int) =~= value@);
        match Self::from_chars(&chars, 0, chars.len()) {
            Some(m) => Ok(m),
            None => Err(
                SipParseError { code: 2, message: Some(String::from_str("Invalid Request Method")) },
            ),
        }
    }
}

/// The status lines that a response can carry.
#[derive(Debug, Clone, Copy, PartialEq, Eq, Structural)]
pub enum ResType {
    Trying,
    Ringing,
    SessionProgress,
    Okay,
    BadRequest,
    Unauthorized,
    Forbidden,
    NotFound,
    RequestTimeout,
    TemporarilyUnavailable,
    BusyHere,
    RequestTerminated,
    InternalServerError,
    BadGateway,
    ServiceUnavailable,
}

impl ResType {
    /// The status code.
    pub open spec fn spec_code(&self) -> u16 {
        match self {
            ResType::Trying => 100,
            ResType::Ringing => 180,
            ResType::SessionProgress => 183,
            ResType::Okay => 200,
            ResType::BadRequest => 400,
            ResType::Unauthorized => 401,
            ResType::Forbidden => 403,
            ResType::NotFound => 404,
            ResType::RequestTimeout => 408,
            ResType::TemporarilyUnavailable => 480,
            ResType::BusyHere => 486,
            ResType::RequestTerminated => 487,
            ResType::InternalServerError => 500,
            ResType::BadGateway => 502,
            ResType::ServiceUnavailable => 503,
        }
    }

    /// The reason phrase that goes with the code.
    pub open spec fn spec_reason(&self) -> Seq<char> {
        match self {
            ResType::Trying => "Trying"@,
            ResType::Ringing => "Ringing"@,
            ResType::SessionProgress => "Session Progress"@,
            ResType::Okay => "OK"@,
            ResType::BadRequest => "Bad Request"@,
            ResType::Unauthorized => "Unauthorized"@,
            ResType::Forbidden => "Forbidden"@,
            ResType::NotFound => "Not Found"@,
            ResType::RequestTimeout => "Request Timeout"@,
            ResType::TemporarilyUnavailable => "Temporarily Unavailable"@,
            ResType::BusyHere => "Busy Here"@,
            ResType::RequestTerminated => "Request Terminated"@,
            ResType::InternalServerError => "Internal Server Error"@,
            ResType::BadGateway => "Bad Gateway"@,
            ResType::ServiceUnavailable => "Service Unavailable"@,
        }
    }

    /// The code, a space and the reason phrase, as they stand in a status
    /// line behind the protocol version.
    pub open spec fn text(self) -> Seq<char> {
        decimal_text(self.spec_code() as nat) + " "@ + self.spec_reason()
    }

    /// The status code.
    #[verifier::when_used_as_spec(spec_code)]
    pub fn code(&self) -> (c: u16)
        ensures
            c == self.spec_code(),
            100 <= c < 600,
    {
        match self {
            ResType::Trying => 100,
            ResType::Ringing => 180,
            ResType::SessionProgress => 183,
            ResType::Okay => 200,
            ResType::BadRequest => 400,
            ResType::Unauthorized => 401,
            ResType::Forbidden => 403,
            ResType::NotFound => 404,
            ResType::RequestTimeout => 408,
            ResType::TemporarilyUnavailable => 480,
            ResType::BusyHere => 486,
            ResType::RequestTerminated => 487,
            ResType::InternalServerError => 500,
            ResType::BadGateway => 502,
            ResType::ServiceUnavailable => 503,
        }
    }

    /// The reason phrase that goes with the code.
    pub fn reason(&self) -> (s: &'static str)
        ensures
            s@ == self.spec_reason(),
    {
        match self {
            ResType::Trying => "Trying",
            ResType::Ringing => "Ringing",
            ResType::SessionProgress => "Session Progress",
            ResType::Okay => "OK",
            ResType::BadRequest => "Bad Request",
            ResType::Unauthorized => "Unauthorized",
            ResType::Forbidden => "Forbidden",
            ResType::NotFound => "Not Found",
            ResType::RequestTimeout => "Request Timeout",
            ResType::TemporarilyUnavailable => "Temporarily Unavailable",
            ResType::BusyHere => "Busy Here",
            ResType::RequestTerminated => "Request Terminated",
            ResType::InternalServerError => "Internal Server Error",
            ResType::BadGateway => "Bad Gateway",
            ResType::ServiceUnavailable => "Service Unavailable",
        }
    }

    /// The code, a space and the reason phrase.
    pub fn to_string(&self) -> (s: String)
        ensures
            s@ == self.text(),
    {
        let mut s = String::new();
        append_decimal(&mut s, self.code() as u32);
        s.append(" ");
        s.append(self.reason());
        s
    }
}

/// Whether a message came in or goes out.
#[derive(Debug, Clone, Copy, PartialEq, Eq, Structural)]
pub enum ReqDirection {
    In,
    Out,
}

/// A parsed SIP request.
#[derive(Debug, Clone, PartialEq, Eq)]
pub struct ReqMessage {
    /// The method of the request line.
    pub method: ReqMethod,
    /// Always `In`: a parsed request came in.
    pub direction: ReqDirection,
    /// The target of the request.
    pub uri: Uri,
    /// The protocol version of the request line.
    pub version: String,
    /// The headers, in the order in which they arrived. Headers of one name
    /// may occur more than once; none replaces another.
    pub headers: Vec<Header>,
    /// The lines behind the first empty line, if there is an empty line.
    pub body: Option<Vec<String>>,
    /// How many lines in front of the body were no headers and were left out.
    pub skipped: usize,
}

/// What a request text is made of.
pub struct RequestParts {
    pub method: ReqMethod,
    pub uri: UriParts,
    pub version: Seq<char>,
    pub headers: Seq<(Seq<char>, Seq<char>)>,
    pub body: Option<Seq<Seq<char>>>,
    pub skipped: nat,
}

/// Name and value of each header of `headers`.
pub open spec fn header_views(headers: Seq<Header>) -> Seq<(Seq<char>, Seq<char>)> {
    Seq::new(headers.len(), |i: int| (headers[i].name@, headers[i].value@))
}

impl View for ReqMessage {
    type V = RequestParts;

    open spec fn view(&self) -> RequestParts {
        RequestParts {
            method: self.method,
            uri: self.uri@,
            version: self.version@,
            headers: header_views(self.headers@),
            body: match self.body {
                Some(b) => Some(string_views(b@)),
                None => None,
            },
            skipped: self.skipped as nat,
        }
    }
}

/// The method token, the URI token and the version of a request line, if it
/// is one: the text up to the first space, the text from there up to the
/// second space, and all that follows.
pub open spec fn request_line_tokens(line: Seq<char>) -> Option<
    (Seq<char>, Seq<char>, Seq<char>),
> {
    let first = run_end(line, 0, CharClass::Except(' '));
    if first >= line.len() {
        None
    } else {
        let second = run_end(line, first + 1, CharClass::Except(' '));
        if second >= line.len() {
            None
        } else {
            Some(
                (
                    line.subrange(0, first),
                    line.subrange(first + 1, second),
                    line.subrange(second + 1, line.len() as int),
                ),
            )
        }
    }
}

/// The index of the first empty line at or after `start`; the number of
/// lines if there is none.
pub open spec fn first_blank(lines: Seq<Seq<char>>, start: int) -> int
    decreases lines.len() - start,
{
    if start < 0 || start >= lines.len() {
        lines.len() as int
    } else if lines[start].len() == 0 {
        start
    } else {
        first_blank(lines, start + 1)
    }
}

/// The first empty line is where `first_blank` says, and nowhere else.
pub proof fn lemma_first_blank(lines: Seq<Seq<char>>, start: int, at: int)
    requires
        0 <= start <= lines.len(),
    ensures
        at == first_blank(lines, start) <==> {
            &&& start <= at <= lines.len()
            &&& forall|i: int| start <= i < at ==> (#[trigger] lines[i]).len() > 0
            &&& at < lines.len() ==> lines[at].len() == 0
        },
    decreases lines.len() - start,
{
    if start < lines.len() && lines[start].len() != 0 {
        lemma_first_blank(lines, start + 1, at);
    }
}

/// The headers among `lines`, in order; a line that is no header is left
/// out.
pub open spec fn headers_in(lines: Seq<Seq<char>>) -> Seq<(Seq<char>, Seq<char>)>
    decreases lines.len(),
{
    if lines.len() == 0 {
        Seq::empty()
    } else {
        let front = headers_in(lines.drop_last());
        match header_parts(lines.last()) {
            Some(h) => front.push(h),
            None => front,
        }
    }
}

/// Whether a line starts with a NUL character.
pub open spec fn starts_with_nul(line: Seq<char>) -> bool {
    line.len() > 0 && line[0] == '\0'
}

/// The body lines among `lines`, in order: all but those that start with a
/// NUL character.
pub open spec fn body_in(lines: Seq<Seq<char>>) -> Seq<Seq<char>>
    decreases lines.len(),
{
    if lines.len() == 0 {
        Seq::empty()
    } else if starts_with_nul(lines.last()) {
        body_in(lines.drop_last())
    } else {
        body_in(lines.drop_last()).push(lines.last())
    }
}

/// No more headers are found than there are lines.
pub proof fn lemma_headers_in_len(lines: Seq<Seq<char>>)
    ensures
        headers_in(lines).len() <= lines.len(),
    decreases lines.len(),
{
    if lines.len() > 0 {
        lemma_headers_in_len(lines.drop_last());
    }
}

/// The request that a datagram text holds, or the code of the failure.
///
/// The first line is the request line. If it has no three tokens or its
/// URI token is no URI, the code is 1; if its method token names no method,
/// the code is 2. The lines from the second up to the first empty line are
/// read as headers, and those that are none are counted as skipped. If
/// there is an empty line, the lines behind it that do not start with a NUL
/// character are the body.
pub open spec fn request_parts(text: Seq<char>) -> Result<RequestParts, u32> {
    let lines = lines_of(text);
    match request_line_tokens(lines[0]) {
        None => Err(1u32),
        Some((method, uri, version)) => match (uri_parts(uri), ReqMethod::from_text(method)) {
            (None, _) => Err(1u32),
            (Some(_), None) => Err(2u32),
            (Some(uri), Some(method)) => {
                let blank = first_blank(lines, 1);
                let head = lines.subrange(1, blank);
                Ok(
                    RequestParts {
                        method,
                        uri,
                        version,
                        headers: headers_in(head),
                        body: if blank < lines.len() {
                            Some(body_in(lines.subrange(blank + 1, lines.len() as int)))
                        } else {
                            None
                        },
                        skipped: (head.len() - headers_in(head).len()) as nat,
                    },
                )
            },
        },
    }
}

/// How many of `headers`, given as names and values, bear the name `name`.
pub open spec fn count_named(headers: Seq<(Seq<char>, Seq<char>)>, name: Seq<char>) -> nat
    decreases headers.len(),
{
    if headers.len() == 0 {
        0
    } else {
        count_named(headers.drop_last(), name) + if headers.last().0 == name {
            1nat
        } else {
            0nat
        }
    }
}

/// The value of the last of `headers` that bears the name `name`.
pub open spec fn last_named(headers: Seq<(Seq<char>, Seq<char>)>, name: Seq<char>) -> Option<
    Seq<char>,
>
    decreases headers.len(),
{
    if headers.len() == 0 {
        None
    } else if headers.last().0 == name {
        Some(headers.last().1)
    } else {
        last_named(headers.drop_last(), name)
    }
}

/// The value of the one header that bears the name `name`; `None` when no
/// header bears it, and also when two or more do.
pub open spec fn single_value(headers: Seq<(Seq<char>, Seq<char>)>, name: Seq<char>) -> Option<
    Seq<char>,
> {
    if count_named(headers, name) == 1 {
        last_named(headers, name)
    } else {
        None
    }
}

/// The number of the one `CSeq` header, if there is one and its value
/// starts with a number that fits in 32 bits.
pub open spec fn cseq_number(headers: Seq<(Seq<char>, Seq<char>)>) -> Option<nat> {
    match single_value(headers, "CSeq"@) {
        None => None,
        Some(value) => match cseq_parts(value) {
            None => None,
            Some(parts) => Some(parts.0),
        },
    }
}

impl ReqMessage {
    /// Parses the text of a datagram into a request.
    ///
    /// Fails with code 1 and the message `Invalid URI` exactly when the
    /// first line has no three tokens or its URI token is no URI, and
    /// otherwise with code 2 and the message `Invalid Request Method`
    /// exactly when the method token names no method. A line that is no
    /// header never fails the request: it is counted in `skipped`. No
    /// header is given parameters: values are not split any further.
    pub fn parse(message: &str) -> (r: Result<ReqMessage, SipParseError>)
        ensures
            match r {
                Ok(m) => {
                    &&& request_parts(message@) == Ok::<RequestParts, u32>(m@)
                    &&& m.direction == ReqDirection::In
                    &&& m.uri.display_name is None
                    &&& m.uri.params is None
                    &&& forall|i: int|
                        0 <= i < m.headers@.len() ==> (#[trigger] m.headers@[i]).params is None
                },
                Err(e) => {
                    &&& request_parts(message@) == Err::<RequestParts, u32>(e.code)
                    &&& e.message matches Some(m) && m@ == (if e.code == 1 {
                        "Invalid URI"@
                    } else {
                        "Invalid Request Method"@
                    })
                },
            },
    {
        let lines = split_lines(message);
        let ghost all = lines_of(message@);
        assert(all[0] == lines@[0]@);
        let (token, uri, version) = match Self::parse_request_uri(lines[0]) {
            Ok(parts) => parts,
            Err(_) => {
                return Err(SipParseError::new(1, Some(String::from_str("Invalid URI"))));
            },
        };
        let method = match ReqMethod::from_str(token) {
            Ok(method) => method,
            Err(e) => {
                return Err(e);
            },
        };
        let version = version.to_owned();

        let mut headers: Vec<Header> = Vec::new();
        let mut skipped: usize = 0;
        let mut i: usize = 1;
        while i < lines.len() && !lines[i].is_empty()
            invariant
                1 <= i <= lines.len(),
                all == str_views(lines@),
                forall|j: int| 1 <= j < i ==> (#[trigger] all[j]).len() > 0,
                header_views(headers@) == headers_in(all.subrange(1, i as int)),
                forall|j: int| 0 <= j < headers@.len() ==> (#[trigger] headers@[j]).params is None,
                skipped + headers.len() == i - 1,
            decreases lines.len() - i,
        {
            let ghost before = header_views(headers@);
            proof {
                let upto = all.subrange(1, i + 1);
                assert(upto.drop_last() =~= all.subrange(1, i as int));
                assert(upto.last() == lines@[i as int]@);
            }
            match Header::parse(lines[i]) {
                Ok(header) => {
                    headers.push(header);
                    assert(header_views(headers@) =~= before.push((header.name@, header.value@)));
                },
                Err(_) => {
                    skipped = skipped + 1;
                },
            }
            i = i + 1;
        }
        proof {
            lemma_first_blank(all, 1, i as int);
        }
        let blank = i;
        let body = if blank < lines.len() {
            let mut body: Vec<String> = Vec::new();
            let mut j: usize = blank + 1;
            while j < lines.len()
                invariant
                    blank + 1 <= j <= lines.len(),
                    all == str_views(lines@),
                    string_views(body@) == body_in(all.subrange(blank + 1, j as int)),
                decreases lines.len() - j,
            {
                let ghost before = string_views(body@);
                proof {
                    let upto = all.subrange(blank + 1, j + 1);
                    assert(upto.drop_last() =~= all.subrange(blank + 1, j as int));
                    assert(upto.last() == lines@[j as int]@);
                }
                let text = lines[j];
                if text.is_empty() || text.get_char(0) != '\0' {
                    let owned = text.to_owned();
                    body.push(owned);
                    assert(string_views(body@) =~= before.push(text@));
                }
                j = j + 1;
            }
            Some(body)
        } else {
            None
        };
        Ok(
            ReqMessage {
                method,
                direction: ReqDirection::In,
                uri,
                version,
                headers,
                body,
                skipped,
            },
        )
    }

    /// Splits a request line into its method token, its target and its
    /// version, and parses the target.
    ///
    /// Fails with `MalformedRequest` exactly when the line has no two
    /// spaces, and otherwise with `InvalidUri` exactly when what stands
    /// between the first two is no URI.
    fn parse_request_uri(line: &str) -> (r: Result<(&str, Uri, &str), SipError>)
        ensures
            match r {
                Ok(parts) => {
                    &&& request_line_tokens(line@) matches Some(tokens) && tokens.0 == parts.0@
                        && uri_parts(tokens.1) == Some(parts.1@) && tokens.2 == parts.2@
                    &&& parts.1.display_name is None
                    &&& parts.1.params is None
                },
                Err(e) => match request_line_tokens(line@) {
                    None => e == SipError::MalformedRequest,
                    Some(tokens) => e == SipError::InvalidUri && uri_parts(tokens.1) is None,
                },
            },
    {
        let chars = to_chars(line);
        let first = scan(&chars, 0, CharClass::Except(' '));
        if first >= chars.len() {
            return Err(SipError::MalformedRequest);
        }
        let second = scan(&chars, first + 1, CharClass::Except(' '));
        if second >= chars.len() {
            return Err(SipError::MalformedRequest);
        }
        match Uri::parse(line.substring_char(first + 1, second)) {
            Ok(uri) => Ok(
                (
                    line.substring_char(0, first),
                    uri,
                    line.substring_char(second + 1, chars.len()),
                ),
            ),
            Err(e) => Err(e),
        }
    }

    /// The one header that bears the name `name`.
    ///
    /// Gives a header exactly when one header, and no more than one, bears
    /// that name letter for letter; with two or more the answer is `None`,
    /// not the first of them.
    pub fn get_single_header(&self, name: &str) -> (r: Option<&Header>)
        ensures
            match r {
                Some(h) => single_value(self@.headers, name@) == Some(h.value@) && h.name@ == name@
                    && self.headers@.contains(*h),
                None => single_value(self@.headers, name@) is None,
            },
    {
        let ghost all = header_views(self.headers@);
        let mut found: usize = 0;
        let mut at: usize = 0;
        let mut i: usize = 0;
        while i < self.headers.len()
            invariant
                i <= self.headers.len(),
                all == header_views(self.headers@),
                found == count_named(all.take(i as int), name@),
                found <= i,
                found > 0 ==> at < i && self.headers@[at as int].name@ == name@ && last_named(
                    all.take(i as int),
                    name@,
                ) == Some(self.headers@[at as int].value@),
                found == 0 ==> last_named(all.take(i as int), name@) is None,
            decreases self.headers.len() - i,
        {
            proof {
                let upto = all.take(i + 1);
                assert(upto.drop_last() =~= all.take(i as int));
                assert(upto.last() == all[i as int]);
            }
            if same_text(self.headers[i].name.as_str(), name) {
                found = found + 1;
                at = i;
            }
            i = i + 1;
        }
        assert(all.take(i as int) =~= all);
        if found == 1 {
            Some(&self.headers[at])
        } else {
            None
        }
    }

    /// The sequence number of the request.
    ///
    /// Gives a number exactly when the request has one `CSeq` header, and no
    /// more than one, whose value starts with a number that fits in 32 bits.
    pub fn get_cseq_number(&self) -> (r: Option<u32>)
        ensures
            match r {
                Some(n) => cseq_number(self@.headers) == Some(n as nat),
                None => cseq_number(self@.headers) is None,
            },
    {
        match self.get_single_header("CSeq") {
            None => None,
            Some(header) => match CSeq::parse(header.value.as_str()) {
                Ok(parts) => Some(parts.0),
                Err(_) => None,
            },
        }
    }
}

/// The token of a method names that method and no other, and holds no
/// space.
pub proof fn lemma_method_round_trip(method: ReqMethod)
    ensures
        ReqMethod::from_text(method.text()) == Some(method),
        all_in(method.text(), CharClass::Except(' ')),
{
    reveal_strlit("REGISTER");
    reveal_strlit("INVITE");
    reveal_strlit("ACK");
    reveal_strlit("BYE");
    reveal_strlit("CANCEL");
    reveal_strlit("UPDATE");
    reveal_strlit("REFER");
    reveal_strlit("PRACK");
    reveal_strlit("SUBSCRIBE");
    reveal_strlit("NOTIFY");
    reveal_strlit("PUBLISH");
    reveal_strlit("MESSAGE");
    reveal_strlit("INFO");
    reveal_strlit("OPTIONS");
    assert("REGISTER"@.len() == 8 && "REGISTER"@[0] == 'R');
    assert("INVITE"@.len() == 6 && "INVITE"@[0] == 'I');
    assert("ACK"@.len() == 3 && "ACK"@[0] == 'A');
    assert("BYE"@.len() == 3 && "BYE"@[0] == 'B');
    assert("CANCEL"@.len() == 6 && "CANCEL"@[0] == 'C');
    assert("UPDATE"@.len() == 6 && "UPDATE"@[0] == 'U');
    assert("REFER"@.len() == 5 && "REFER"@[0] == 'R');
    assert("PRACK"@.len() == 5 && "PRACK"@[0] == 'P');
    assert("SUBSCRIBE"@.len() == 9 && "SUBSCRIBE"@[0] == 'S');
    assert("NOTIFY"@.len() == 6 && "NOTIFY"@[0] == 'N');
    assert("PUBLISH"@.len() == 7 && "PUBLISH"@[0] == 'P');
    assert("MESSAGE"@.len() == 7 && "MESSAGE"@[0] == 'M');
    assert("INFO"@.len() == 4 && "INFO"@[0] == 'I');
    assert("OPTIONS"@.len() == 7 && "OPTIONS"@[0] == 'O');
}

/// The request line made of a method, a URI text and a version, with one
/// space between them.
pub open spec fn request_line(method: ReqMethod, uri: Seq<char>, version: Seq<char>) -> Seq<
    char,
> {
    method.text() + " "@ + uri + " "@ + version
}

/// A request line is split back into the method token, the URI token and
/// the version that it was made of, as long as the URI holds no space.
pub proof fn lemma_request_line_round_trip(method: ReqMethod, uri: Seq<char>, version: Seq<char>)
    requires
        all_in(uri, CharClass::Except(' ')),
    ensures
        request_line_tokens(request_line(method, uri, version)) == Some(
            (method.text(), uri, version),
        ),
{
    reveal_strlit(" ");
    lemma_method_round_trip(method);
    let line = request_line(method, uri, version);
    let token = method.text();
    let first: int = token.len() as int;
    let second: int = first + 1 + uri.len();
    assert(line.len() == second + 1 + version.len());
    assert forall|i: int| 0 <= i < first implies line[i] == token[i] by {}
    assert(line[first] == ' ');
    assert forall|i: int| first < i < second implies line[i] == uri[i - first - 1] by {}
    assert(line[second] == ' ');
    assert(is_run(line, 0, CharClass::Except(' '), first));
    lemma_run_end(line, 0, CharClass::Except(' '), first);
    assert(is_run(line, first + 1, CharClass::Except(' '), second));
    lemma_run_end(line, first + 1, CharClass::Except(' '), second);
    assert(line.subrange(0, first) =~= token);
    assert(line.subrange(first + 1, second) =~= uri);
    assert(line.subrange(second + 1, line.len() as int) =~= version);
}

/// A request whose first line is `METHOD scheme:user@host:port version` is
/// parsed, whatever follows that line, and its method, the parts of its URI
/// and its version are those that the line was made of.
///
/// User and host must hold no space, and the line no line terminator: else
/// the line would end earlier than it was meant to.
pub proof fn lemma_request_round_trip(
    method: ReqMethod,
    uri: UriParts,
    version: Seq<char>,
    rest: Seq<char>,
)
    requires
        valid_uri_parts(uri),
        all_in(uri.user, CharClass::Except(' ')),
        all_in(uri.host, CharClass::Except(' ')),
        no_terminator(request_line(method, uri_text(uri), version)),
    ensures
        request_parts(request_line(method, uri_text(uri), version)) matches Ok(r) && r.method
            == method && r.uri == uri && r.version == version,
        request_parts(request_line(method, uri_text(uri), version) + "\r\n"@ + rest) matches Ok(
            r,
        ) && r.method == method && r.uri == uri && r.version == version,
{
    let target = uri_text(uri);
    let line = request_line(method, target, version);
    assert(all_in(target, CharClass::Except(' '))) by {
        reveal_strlit("sip");
        reveal_strlit("sips");
        reveal_strlit(":");
        reveal_strlit("@");
        lemma_decimal_round_trip(uri.port);
        let digits = decimal_text(uri.port);
        let start: int = (uri.scheme.len() + 1) as int;
        let at: int = start + uri.user.len();
        let colon: int = at + 1 + uri.host.len();
        assert forall|i: int| 0 <= i < target.len() implies CharClass::Except(' ').holds(
            #[trigger] target[i],
        ) by {
            if i < start - 1 {
                assert(target[i] == uri.scheme[i]);
            } else if i == start - 1 {
            } else if i < at {
                assert(target[i] == uri.user[i - start]);
            } else if i == at {
            } else if i < colon {
                assert(target[i] == uri.host[i - at - 1]);
            } else if i == colon {
            } else {
                assert(target[i] == digits[i - colon - 1]);
                assert(CharClass::Digit.holds(digits[i - colon - 1]));
            }
        }
    }
    lemma_request_line_round_trip(method, target, version);
    lemma_uri_round_trip(uri);
    lemma_method_round_trip(method);
    let none = Seq::<char>::empty();
    assert(lines_of(line)[0] == line) by {
        lemma_next_crlf(line, 0, line.len() as int);
        assert(line.subrange(0, line.len() as int) =~= line);
    }
    assert(lines_of(line + "\r\n"@ + rest)[0] == line) by {
        lemma_line_then_rest(none, line, rest);
        assert(none + line + "\r\n"@ + rest =~= line + "\r\n"@ + rest);
    }
}

} // verus!
