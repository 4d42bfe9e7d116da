//! A minimal SIP user-agent server core: a request parser, a per-call state
//! machine and a response builder, all free of I/O.
//!
//! A datagram text and the address it came from go in; the texts of the
//! responses to send back, in order, come out. A call that has reached
//! `Ending` stays in the registry for good: a later request that uses its
//! identity again meets a call that is ending, and is answered as such.

use vstd::hash_map::StringHashMap;
use vstd::prelude::*;
use vstd::string::StringExecFns;

pub mod parser;
pub mod response;
pub mod text;

use parser::request::{cseq_number, request_parts, single_value, RequestParts};
use parser::{ReqMessage, ReqMethod, ResType};
use response::{has_one_of_each, lemma_response_has_one_of_each, render, response_text};
use text::{lemma_no_terminator_between, no_terminator, plain, string_views, to_chars};

verus! {

/// Why a datagram, or a part of one, was rejected.
#[derive(Debug, Clone, Copy, PartialEq, Eq, Structural)]
pub enum SipError {
    /// The request URI does not have the shape `sip:user@host:port`.
    InvalidUri,
    /// A header line has no `name: value` shape.
    MalformedHeader,
    /// The request line cannot be split into method, URI and version, or
    /// its URI is none.
    MalformedRequest,
    /// The request carries no single `Call-ID` header.
    MissingCallId,
    /// The request carries no single `CSeq` header with a leading number.
    MissingOrInvalidCseq,
    /// The method token of the request line is not a SIP method.
    UnknownMethod,
    /// A response could not be put together.
    ResponseMessage,
}

impl SipError {
    /// What `to_string` gives.
    pub open spec fn text(self) -> Seq<char> {
        match self {
            SipError::InvalidUri => "Invalid URI"@,
            SipError::MalformedHeader => "Malformed header"@,
            SipError::MalformedRequest => "Malformed request"@,
            SipError::MissingCallId => "Missing Call-ID header"@,
            SipError::MissingOrInvalidCseq => "Missing or invalid CSeq header"@,
            SipError::UnknownMethod => "Invalid Request Method"@,
            SipError::ResponseMessage => "Could not create response for provided request"@,
        }
    }

    /// The error in a few words, for diagnostics.
    pub fn to_string(&self) -> (s: String)
        ensures
            s@ == self.text(),
    {
        String::from_str(
            match self {
                SipError::InvalidUri => "Invalid URI",
                SipError::MalformedHeader => "Malformed header",
                SipError::MalformedRequest => "Malformed request",
                SipError::MissingCallId => "Missing Call-ID header",
                SipError::MissingOrInvalidCseq => "Missing or invalid CSeq header",
                SipError::UnknownMethod => "Invalid Request Method",
                SipError::ResponseMessage => "Could not create response for provided request",
            },
        )
    }
}

/// How far a call has come.
#[derive(Debug, Clone, Copy, PartialEq, Eq, Structural)]
pub enum CallState {
    /// Just created; no request has been applied yet.
    Initializing,
    /// Waiting for the callee; no request of the minimal call flow leads
    /// here.
    Trying,
    /// Answered and not yet terminated.
    InProgress,
    /// Terminated; no request leads out of this state.
    Ending,
}

/// The socket address that a request came from, as its responses name it:
/// the text of an IP address and a port.
#[derive(Debug, PartialEq, Eq)]
pub struct SourceAddress {
    host: String,
    port: u16,
}

/// Whether `c` can stand in the text of an IP address: a hexadecimal digit,
/// a dot or a colon.
pub open spec fn is_address_char(c: char) -> bool {
    ('0' <= c <= '9') || ('a' <= c <= 'f') || ('A' <= c <= 'F') || c == '.' || c == ':'
}

/// Whether `host` can be the text of an IP address: it is not empty and
/// holds hexadecimal digits, dots and colons only. Such a text holds no
/// blank, no bracket and no line terminator.
pub open spec fn is_address_text(host: Seq<char>) -> bool {
    host.len() > 0 && forall|i: int| 0 <= i < host.len() ==> is_address_char(#[trigger] host[i])
}

/// The text of an IP address holds no line terminator.
pub proof fn lemma_address_has_no_terminator(host: Seq<char>)
    requires
        is_address_text(host),
    ensures
        plain(host),
        no_terminator(host),
{
    let none = Seq::<char>::empty();
    assert(plain(host)) by {
        assert forall|i: int| 0 <= i < host.len() implies #[trigger] host[i] != '\r' && host[i]
            != '\n' by {
            assert(is_address_char(host[i]));
        }
    }
    lemma_no_terminator_between(host, none, none);
    assert(host + none + none =~= host);
}

impl View for SourceAddress {
    type V = (Seq<char>, u16);

    /// The text of the IP address, and the port.
    closed spec fn view(&self) -> (Seq<char>, u16) {
        (self.host@, self.port)
    }
}

impl Clone for SourceAddress {
    fn clone(&self) -> (copy: SourceAddress)
        ensures
            copy@ == self@,
    {
        proof {
            use_type_invariant(self);
        }
        SourceAddress { host: self.host.clone(), port: self.port }
    }
}

impl SourceAddress {
    /// The host of every source address is the text of an IP address.
    #[verifier::type_invariant]
    spec fn host_is_address(&self) -> bool {
        is_address_text(self.host@)
    }

    /// The source address with the given host and port.
    ///
    /// Gives an address exactly when `host` is the text of an IP address.
    pub fn new(host: &str, port: u16) -> (r: Option<SourceAddress>)
        ensures
            match r {
                Some(address) => is_address_text(host@) && address@ == (host@, port),
                None => !is_address_text(host@),
            },
    {
        let chars = to_chars(host);
        if chars.len() == 0 {
            return None;
        }
        let mut i: usize = 0;
        while i < chars.len()
            invariant
                i <= chars.len(),
                chars@ == host@,
                forall|j: int| 0 <= j < i ==> is_address_char(#[trigger] chars@[j]),
            decreases chars.len() - i,
        {
            let c: char = chars[i];
            if !(('0' <= c && c <= '9') || ('a' <= c && c <= 'f') || ('A' <= c && c <= 'F') || c
                == '.' || c == ':') {
                return None;
            }
            i = i + 1;
        }
        Some(SourceAddress { host: host.to_owned(), port })
    }

    /// The text of the IP address.
    pub fn host(&self) -> (host: &str)
        ensures
            host@ == self@.0,
            is_address_text(host@),
    {
        proof {
            use_type_invariant(self);
        }
        self.host.as_str()
    }

    /// The port.
    pub fn port(&self) -> (port: u16)
        ensures
            port == self@.1,
    {
        self.port
    }
}

/// What the state machine knows of one call.
pub struct Call {
    state: CallState,
    cseq: u32,
    call_id: String,
    source: SourceAddress,
}

/// The contents of a call record.
pub struct CallParts {
    pub state: CallState,
    /// The sequence number of the last request.
    pub cseq: u32,
    /// The value of the `Call-ID` header of the call's requests.
    pub call_id: Seq<char>,
    /// Host and port that the first request of the call came from.
    pub host: Seq<char>,
    pub port: u16,
}

impl View for Call {
    type V = CallParts;

    closed spec fn view(&self) -> CallParts {
        CallParts {
            state: self.state,
            cseq: self.cseq,
            call_id: self.call_id@,
            host: self.source@.0,
            port: self.source@.1,
        }
    }
}

/// The responses that a call in state `state` gives to a request of method
/// `method`, in the order in which they are sent, and the state that the
/// call is in afterwards.
pub open spec fn transition(state: CallState, method: ReqMethod) -> (Seq<ResType>, CallState) {
    match state {
        CallState::Initializing => match method {
            ReqMethod::Invite => (
                seq![ResType::SessionProgress, ResType::Okay],
                CallState::InProgress,
            ),
            ReqMethod::Bye => (seq![ResType::Okay], CallState::Ending),
            _ => (Seq::empty(), CallState::Initializing),
        },
        CallState::Trying => (seq![ResType::Ringing], CallState::Trying),
        CallState::InProgress => match method {
            ReqMethod::Bye => (seq![ResType::Okay], CallState::Ending),
            _ => (seq![ResType::Okay], CallState::InProgress),
        },
        CallState::Ending => (seq![ResType::Ringing], CallState::Ending),
    }
}

/// Computes one step of the state machine.
pub fn step(state: CallState, method: ReqMethod) -> (r: (Vec<ResType>, CallState))
    ensures
        r.0@ == transition(state, method).0,
        r.1 == transition(state, method).1,
{
    let mut kinds: Vec<ResType> = Vec::new();
    let next = match state {
        CallState::Initializing => match method {
            ReqMethod::Invite => {
                kinds.push(ResType::SessionProgress);
                kinds.push(ResType::Okay);
                CallState::InProgress
            },
            ReqMethod::Bye => {
                kinds.push(ResType::Okay);
                CallState::Ending
            },
            _ => CallState::Initializing,
        },
        CallState::Trying => {
            kinds.push(ResType::Ringing);
            CallState::Trying
        },
        CallState::InProgress => {
            kinds.push(ResType::Okay);
            match method {
                ReqMethod::Bye => CallState::Ending,
                _ => CallState::InProgress,
            }
        },
        CallState::Ending => {
            kinds.push(ResType::Ringing);
            CallState::Ending
        },
    };
    assert(kinds@ =~= transition(state, method).0);
    (kinds, next)
}

/// What applying a request does: the kinds of the responses, in order, and
/// the call record as it stands afterwards; or the reason for which the
/// request is rejected.
///
/// The request must bear exactly one `Call-ID` header, else it is rejected
/// with `MissingCallId`; and exactly one `CSeq` header with a leading number
/// that fits in 32 bits, else it is rejected with `MissingOrInvalidCseq`. A
/// call that the registry does not know starts in `Initializing` with the
/// given host and port; a known call keeps the host and port that it was
/// created with. The number of the request is stored whatever it is.
pub open spec fn apply_outcome(
    calls: Map<Seq<char>, CallParts>,
    host: Seq<char>,
    port: u16,
    request: RequestParts,
) -> Result<(Seq<ResType>, CallParts), SipError> {
    match (single_value(request.headers, "Call-ID"@), cseq_number(request.headers)) {
        (None, _) => Err(SipError::MissingCallId),
        (Some(_), None) => Err(SipError::MissingOrInvalidCseq),
        (Some(call_id), Some(number)) => {
            let known = calls.contains_key(call_id);
            let state = if known {
                calls[call_id].state
            } else {
                CallState::Initializing
            };
            let next = transition(state, request.method);
            Ok(
                (
                    next.0,
                    CallParts {
                        state: next.1,
                        cseq: number as u32,
                        call_id,
                        host: if known {
                            calls[call_id].host
                        } else {
                            host
                        },
                        port: if known {
                            calls[call_id].port
                        } else {
                            port
                        },
                    },
                ),
            )
        },
    }
}

/// The texts of the responses of kinds `kinds` within `call`, each naming
/// `method` as the method that it answers.
pub open spec fn response_texts(call: CallParts, kinds: Seq<ResType>, method: Seq<char>) -> Seq<
    Seq<char>,
> {
    Seq::new(
        kinds.len(),
        |i: int| response_text(call.call_id, call.cseq, call.host, call.port, kinds[i], method),
    )
}

/// What handling a request does: the texts of the responses, in order, and
/// the call record as it stands afterwards; or the reason for which the
/// request is rejected. Each response names the method of the request and
/// the number that the request bore.
pub open spec fn handle_outcome(
    calls: Map<Seq<char>, CallParts>,
    host: Seq<char>,
    port: u16,
    request: RequestParts,
) -> Result<(Seq<Seq<char>>, CallParts), SipError> {
    match apply_outcome(calls, host, port, request) {
        Ok(outcome) => Ok(
            (response_texts(outcome.1, outcome.0, request.method.text()), outcome.1),
        ),
        Err(e) => Err(e),
    }
}

/// What handling the text of a datagram does. A text that is no request is
/// rejected with `UnknownMethod` if only its method token is at fault, and
/// with `MalformedRequest` otherwise.
pub open spec fn message_outcome(
    calls: Map<Seq<char>, CallParts>,
    host: Seq<char>,
    port: u16,
    text: Seq<char>,
) -> Result<(Seq<Seq<char>>, CallParts), SipError> {
    match request_parts(text) {
        Ok(request) => handle_outcome(calls, host, port, request),
        Err(code) => Err(
            if code == 2 {
                SipError::UnknownMethod
            } else {
                SipError::MalformedRequest
            },
        ),
    }
}

impl Call {
    /// The state of the call.
    pub fn state(&self) -> (s: CallState)
        ensures
            s == self@.state,
    {
        self.state
    }

    /// The sequence number of the last request of the call.
    pub fn cseq(&self) -> (n: u32)
        ensures
            n == self@.cseq,
    {
        self.cseq
    }

    /// The identity of the call.
    pub fn call_id(&self) -> (id: &str)
        ensures
            id@ == self@.call_id,
    {
        self.call_id.as_str()
    }

    /// The address that the first request of the call came from.
    pub fn source(&self) -> (s: &SourceAddress)
        ensures
            s@ == (self@.host, self@.port),
            is_address_text(self@.host),
    {
        proof {
            use_type_invariant(&self.source);
        }
        &self.source
    }

    /// Renders a response of kind `response_type` to a request of method
    /// `request` within this call. Never fails.
    ///
    /// Unless the identity of the call or the method holds a line
    /// terminator, the response has exactly one status line, which comes
    /// first, exactly one `Call-ID` header, which bears the identity of
    /// the call, and exactly one `Content-Length` header, which says `0`
    /// and is followed by the empty line and an empty body.
    pub fn create_response(&self, response_type: ResType, request: &str) -> (r: Result<
        String,
        SipError,
    >)
        ensures
            r matches Ok(text) && text@ == response_text(
                self@.call_id,
                self@.cseq,
                self@.host,
                self@.port,
                response_type,
                request@,
            ) && (no_terminator(self@.call_id) && no_terminator(request@) ==> has_one_of_each(
                text@,
                self@.call_id,
                response_type,
            )),
    {
        proof {
            use_type_invariant(&self.source);
            lemma_address_has_no_terminator(self@.host);
            if no_terminator(self@.call_id) && no_terminator(request@) {
                lemma_response_has_one_of_each(
                    self@.call_id,
                    self@.cseq,
                    self@.host,
                    self@.port,
                    response_type,
                    request@,
                );
            }
        }
        Ok(
            render(
                self.call_id.as_str(),
                self.cseq,
                self.source.host(),
                self.source.port(),
                response_type,
                request,
            ),
        )
    }
}

/// The registry of calls, keyed by call identity.
pub struct Calls {
    sip_calls: StringHashMap<Call>,
}

impl View for Calls {
    type V = Map<Seq<char>, CallParts>;

    closed spec fn view(&self) -> Map<Seq<char>, CallParts> {
        self.sip_calls@.map_values(|call: Call| call@)
    }
}

impl Calls {
    /// A registry that knows no call.
    pub fn new() -> (calls: Calls)
        ensures
            calls@ == Map::<Seq<char>, CallParts>::empty(),
    {
        let calls = Calls { sip_calls: StringHashMap::new() };
        assert(calls@ =~= Map::<Seq<char>, CallParts>::empty());
        calls
    }

    /// The record of the call `call_id`, if the registry knows it.
    pub fn get(&self, call_id: &str) -> (r: Option<&Call>)
        ensures
            match r {
                Some(call) => self@.contains_key(call_id@) && call@ == self@[call_id@],
                None => !self@.contains_key(call_id@),
            },
    {
        self.sip_calls.get(call_id)
    }

    /// How many calls the registry knows.
    pub fn len(&self) -> (n: usize)
        ensures
            n == self@.len(),
    {
        let n = self.sip_calls.len();
        proof {
            vstd::hash_map::axiom_string_hash_map_spec_len(&self.sip_calls);
            assert(self@.dom() =~= self.sip_calls@.dom());
        }
        n
    }

    /// Applies a request to the call that it belongs to and gives the kinds
    /// of the responses to send, in order.
    ///
    /// The registry changes only when the request is accepted: then the
    /// record of the request's call is created or replaced, and no other
    /// record is touched.
    pub fn apply(&mut self, src: &SourceAddress, message: &ReqMessage) -> (r: Result<
        Vec<ResType>,
        SipError,
    >)
        ensures
            match r {
                Ok(kinds) => apply_outcome(old(self)@, src@.0, src@.1, message@) matches Ok(
                    outcome,
                ) && kinds@ == outcome.0 && final(self)@ == old(self)@.insert(
                    outcome.1.call_id,
                    outcome.1,
                ),
                Err(e) => apply_outcome(old(self)@, src@.0, src@.1, message@) == Err::<
                    (Seq<ResType>, CallParts),
                    SipError,
                >(e) && final(self)@ == old(self)@,
            },
    {
        let call_id = match message.get_single_header("Call-ID") {
            Some(header) => header.value.as_str(),
            None => {
                return Err(SipError::MissingCallId);
            },
        };
        let number = match message.get_cseq_number() {
            Some(number) => number,
            None => {
                return Err(SipError::MissingOrInvalidCseq);
            },
        };
        let (state, origin) = match self.sip_calls.get(call_id) {
            Some(call) => (call.state, &call.source),
            None => (CallState::Initializing, src),
        };
        let source = origin.clone();
        let (kinds, next) = step(state, message.method);
        let call = Call { state: next, cseq: number, call_id: call_id.to_owned(), source };
        let ghost before = self@;
        self.sip_calls.insert(call_id.to_owned(), call);
        assert(self@ =~= before.insert(call_id@, call@));
        Ok(kinds)
    }

    /// Applies a request and renders the responses to send, in order.
    ///
    /// The registry changes only when the request is accepted.
    pub fn handle_request(&mut self, src: &SourceAddress, message: &ReqMessage) -> (r: Result<
        Vec<String>,
        SipError,
    >)
        ensures
            match r {
                Ok(texts) => handle_outcome(old(self)@, src@.0, src@.1, message@) matches Ok(
                    outcome,
                ) && string_views(texts@) == outcome.0 && final(self)@ == old(self)@.insert(
                    outcome.1.call_id,
                    outcome.1,
                ),
                Err(e) => handle_outcome(old(self)@, src@.0, src@.1, message@) == Err::<
                    (Seq<Seq<char>>, CallParts),
                    SipError,
                >(e) && final(self)@ == old(self)@,
            },
    {
        let kinds = match self.apply(src, message) {
            Ok(kinds) => kinds,
            Err(e) => {
                return Err(e);
            },
        };
        let ghost outcome = apply_outcome(old(self)@, src@.0, src@.1, message@)->Ok_0;
        let call_id = match message.get_single_header("Call-ID") {
            Some(header) => header.value.as_str(),
            None => {
                return Err(SipError::MissingCallId);
            },
        };
        let call = match self.get(call_id) {
            Some(call) => call,
            None => {
                return Err(SipError::MissingCallId);
            },
        };
        let method = message.method.as_str();
        let mut texts: Vec<String> = Vec::new();
        let mut i: usize = 0;
        while i < kinds.len()
            invariant
                i <= kinds.len(),
                kinds@ == outcome.0,
                call@ == outcome.1,
                method@ == message@.method.text(),
                texts@.len() == i,
                forall|j: int|
                    0 <= j < i ==> (#[trigger] texts@[j])@ == response_texts(
                        outcome.1,
                        outcome.0,
                        method@,
                    )[j],
            decreases kinds.len() - i,
        {
            match call.create_response(kinds[i], method) {
                Ok(text) => texts.push(text),
                Err(e) => {
                    return Err(e);
                },
            }
            i = i + 1;
        }
        assert(string_views(texts@) =~= response_texts(outcome.1, outcome.0, method@));
        Ok(texts)
    }

    /// Parses the text of a datagram that came from `src_socket`, applies
    /// the request and renders the responses to send back, in order.
    ///
    /// A text that is rejected, at whatever stage, leaves the registry as
    /// it was and yields no response.
    pub fn handle_sip_message(&mut self, src_socket: &SourceAddress, message: &str) -> (r: Result<
        Vec<String>,
        SipError,
    >)
        ensures
            match r {
                Ok(texts) => message_outcome(
                    old(self)@,
                    src_socket@.0,
                    src_socket@.1,
                    message@,
                ) matches Ok(outcome) && string_views(texts@) == outcome.0 && final(self)@
                    == old(self)@.insert(outcome.1.call_id, outcome.1),
                Err(e) => message_outcome(
                    old(self)@,
                    src_socket@.0,
                    src_socket@.1,
                    message@,
                ) == Err::<(Seq<Seq<char>>, CallParts), SipError>(e) && final(self)@ == old(
                    self,
                )@,
            },
    {
        match ReqMessage::parse(message) {
            Ok(request) => self.handle_request(src_socket, &request),
            Err(e) => if e.code == 2 {
                Err(SipError::UnknownMethod)
            } else {
                Err(SipError::MalformedRequest)
            },
        }
    }
}

/// No request leads out of `Ending`, and none leads back into
/// `Initializing`.
pub proof fn lemma_states_never_return(state: CallState, method: ReqMethod)
    ensures
        state == CallState::Ending ==> transition(state, method).1 == CallState::Ending,
        transition(state, method).1 == CallState::Initializing ==> state
            == CallState::Initializing,
{
}

/// An INVITE for a call that the registry does not know is answered with
/// Session Progress and then OK, and leaves the call in progress. The same
/// INVITE, applied once more, meets that call in progress: it is answered
/// with OK alone, and the record stays as it is.
pub proof fn lemma_invite_twice(
    calls: Map<Seq<char>, CallParts>,
    host: Seq<char>,
    port: u16,
    request: RequestParts,
)
    requires
        request.method == ReqMethod::Invite,
        single_value(request.headers, "Call-ID"@) matches Some(call_id) && !calls.contains_key(
            call_id,
        ),
        cseq_number(request.headers) is Some,
    ensures
        apply_outcome(calls, host, port, request) matches Ok(first) && {
            &&& first.0 == seq![ResType::SessionProgress, ResType::Okay]
            &&& first.1.state == CallState::InProgress
            &&& apply_outcome(
                calls.insert(first.1.call_id, first.1),
                host,
                port,
                request,
            ) matches Ok(second) && second.0 == seq![ResType::Okay] && second.1 == first.1
        },
{
}

/// Whether every record of `calls` is filed under the identity of its
/// call.
pub open spec fn filed_by_identity(calls: Map<Seq<char>, CallParts>) -> bool {
    forall|id: Seq<char>| #[trigger] calls.contains_key(id) ==> calls[id].call_id == id
}

/// A registry whose records are filed under the identities of their calls
/// stays so when a request is applied.
pub proof fn lemma_filing_is_kept(
    calls: Map<Seq<char>, CallParts>,
    host: Seq<char>,
    port: u16,
    request: RequestParts,
)
    requires
        filed_by_identity(calls),
    ensures
        apply_outcome(calls, host, port, request) matches Ok(outcome) ==> filed_by_identity(
            calls.insert(outcome.1.call_id, outcome.1),
        ),
{
}

} // verus!
