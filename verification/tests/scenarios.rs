use moshi_moshi::parser::{ReqMessage, ReqMethod, ResType};
use moshi_moshi::{step, CallState, Calls, SipError, SourceAddress};

fn source() -> SourceAddress {
    SourceAddress::new("10.0.0.9", 5070).unwrap()
}

const INVITE: &str =
    "INVITE sip:svc@10.0.0.5:5060 SIP/2.0\r\nCall-ID: abc123\r\nCSeq: 1 INVITE\r\n\r\n";

const BYE: &str = "BYE sip:svc@10.0.0.5:5060 SIP/2.0\r\nCall-ID: abc123\r\nCSeq: 2 BYE\r\n\r\n";

#[test]
fn invite_yields_session_progress_then_ok() {
    let mut calls = Calls::new();
    let responses = calls.handle_sip_message(&source(), INVITE).unwrap();
    assert_eq!(responses.len(), 2);
    assert!(responses[0].starts_with("SIP/2.0 183 Session Progress\r\n"));
    assert!(responses[1].starts_with("SIP/2.0 200 OK\r\n"));
    assert!(responses[0].contains("Call-ID: abc123\r\n"));
    assert!(responses[1].contains("Call-ID: abc123\r\n"));
    assert_eq!(calls.len(), 1);
    let call = calls.get("abc123").unwrap();
    assert_eq!(call.state(), CallState::InProgress);
    assert_eq!(call.cseq(), 1);
    assert_eq!(call.call_id(), "abc123");
    assert_eq!(call.source(), &source());
}

#[test]
fn invite_response_text_is_exact() {
    let mut calls = Calls::new();
    let responses = calls.handle_sip_message(&source(), INVITE).unwrap();
    assert_eq!(
        responses[1],
        "SIP/2.0 200 OK\r\n\
         Via: SIP/2.0/UDP 192.168.1.146:5070;branch=z9hG4bK-10274-1-0\r\n\
         From: sipp <sip:sipp@192.168.1.146:5070>;tag=10274SIPpTag001\r\n\
         To: service <sip:service@10.0.0.9:5070>;tag=10273SIPpTag011\r\n\
         Call-ID: abc123\r\n\
         CSeq: 1 INVITE\r\n\
         Contact: <sip:10.0.0.9:5070;transport=UDP>\r\n\
         Content-Length: 0\r\n\r\n"
    );
}

#[test]
fn bye_after_invite_ends_the_call() {
    let mut calls = Calls::new();
    calls.handle_sip_message(&source(), INVITE).unwrap();
    let responses = calls.handle_sip_message(&source(), BYE).unwrap();
    assert_eq!(responses.len(), 1);
    assert!(responses[0].starts_with("SIP/2.0 200 OK\r\n"));
    assert!(responses[0].contains("CSeq: 2 BYE\r\n"));
    assert_eq!(calls.len(), 1);
    let call = calls.get("abc123").unwrap();
    assert_eq!(call.state(), CallState::Ending);
    assert_eq!(call.cseq(), 2);
}

#[test]
fn same_invite_twice_differs_by_state() {
    let mut calls = Calls::new();
    let request = ReqMessage::parse(INVITE).unwrap();
    let first = calls.apply(&source(), &request).unwrap();
    assert_eq!(first, vec![ResType::SessionProgress, ResType::Okay]);
    assert_eq!(calls.get("abc123").unwrap().state(), CallState::InProgress);
    let second = calls.apply(&source(), &request).unwrap();
    assert_eq!(second, vec![ResType::Okay]);
    assert_eq!(calls.get("abc123").unwrap().state(), CallState::InProgress);
    assert_eq!(calls.len(), 1);
}

#[test]
fn missing_call_id_is_rejected() {
    let mut calls = Calls::new();
    let text = "INVITE sip:svc@10.0.0.5:5060 SIP/2.0\r\nCSeq: 1 INVITE\r\n\r\n";
    assert_eq!(calls.handle_sip_message(&source(), text), Err(SipError::MissingCallId));
    assert_eq!(calls.len(), 0);
}

#[test]
fn missing_call_id_leaves_known_calls_alone() {
    let mut calls = Calls::new();
    calls.handle_sip_message(&source(), INVITE).unwrap();
    let text = "BYE sip:svc@10.0.0.5:5060 SIP/2.0\r\nCSeq: 2 BYE\r\n\r\n";
    assert_eq!(calls.handle_sip_message(&source(), text), Err(SipError::MissingCallId));
    assert_eq!(calls.len(), 1);
    assert_eq!(calls.get("abc123").unwrap().state(), CallState::InProgress);
    assert_eq!(calls.get("abc123").unwrap().cseq(), 1);
}

#[test]
fn two_call_ids_are_an_ambiguity() {
    let mut calls = Calls::new();
    let text = "INVITE sip:svc@10.0.0.5:5060 SIP/2.0\r\nCall-ID: a\r\nCall-ID: b\r\nCSeq: 1 INVITE\r\n\r\n";
    assert_eq!(calls.handle_sip_message(&source(), text), Err(SipError::MissingCallId));
    assert_eq!(calls.len(), 0);
}

#[test]
fn missing_cseq_is_rejected_without_a_record() {
    let mut calls = Calls::new();
    let text = "INVITE sip:svc@10.0.0.5:5060 SIP/2.0\r\nCall-ID: abc123\r\n\r\n";
    assert_eq!(calls.handle_sip_message(&source(), text), Err(SipError::MissingOrInvalidCseq));
    assert_eq!(calls.len(), 0);
    assert!(calls.get("abc123").is_none());
}

#[test]
fn unparseable_cseq_is_rejected() {
    let mut calls = Calls::new();
    let text = "INVITE sip:svc@10.0.0.5:5060 SIP/2.0\r\nCall-ID: abc123\r\nCSeq: one INVITE\r\n\r\n";
    assert_eq!(calls.handle_sip_message(&source(), text), Err(SipError::MissingOrInvalidCseq));
    let text = "INVITE sip:svc@10.0.0.5:5060 SIP/2.0\r\nCall-ID: abc123\r\nCSeq: 4294967296 INVITE\r\n\r\n";
    assert_eq!(calls.handle_sip_message(&source(), text), Err(SipError::MissingOrInvalidCseq));
    assert_eq!(calls.len(), 0);
}

#[test]
fn unknown_method_is_rejected() {
    let mut calls = Calls::new();
    let text = "FROB sip:svc@10.0.0.5:5060 SIP/2.0\r\nCall-ID: abc123\r\nCSeq: 1 FROB\r\n\r\n";
    assert_eq!(calls.handle_sip_message(&source(), text), Err(SipError::UnknownMethod));
    assert_eq!(calls.len(), 0);
    let error = ReqMessage::parse(text).unwrap_err();
    assert_eq!(error.code, 2);
    assert_eq!(error.message.as_deref(), Some("Invalid Request Method"));
}

#[test]
fn method_alone_is_a_malformed_request() {
    let mut calls = Calls::new();
    assert_eq!(calls.handle_sip_message(&source(), "FROB"), Err(SipError::MalformedRequest));
    assert_eq!(calls.handle_sip_message(&source(), ""), Err(SipError::MalformedRequest));
    assert_eq!(calls.len(), 0);
}

#[test]
fn bad_uri_is_a_malformed_request() {
    let mut calls = Calls::new();
    let text = "INVITE http://example.com SIP/2.0\r\nCall-ID: abc123\r\nCSeq: 1 INVITE\r\n\r\n";
    assert_eq!(calls.handle_sip_message(&source(), text), Err(SipError::MalformedRequest));
    let error = ReqMessage::parse(text).unwrap_err();
    assert_eq!(error.code, 1);
    assert_eq!(error.message.as_deref(), Some("Invalid URI"));
}

#[test]
fn bad_uri_comes_before_unknown_method() {
    let error = ReqMessage::parse("FROB http://example.com SIP/2.0").unwrap_err();
    assert_eq!(error.code, 1);
}

#[test]
fn options_on_a_new_call_is_met_with_silence() {
    let mut calls = Calls::new();
    let text = "OPTIONS sip:svc@10.0.0.5:5060 SIP/2.0\r\nCall-ID: quiet\r\nCSeq: 9 OPTIONS\r\n\r\n";
    let responses = calls.handle_sip_message(&source(), text).unwrap();
    assert!(responses.is_empty());
    let call = calls.get("quiet").unwrap();
    assert_eq!(call.state(), CallState::Initializing);
    assert_eq!(call.cseq(), 9);
}

#[test]
fn bye_on_a_new_call_ends_it() {
    let mut calls = Calls::new();
    let responses = calls.handle_sip_message(&source(), BYE).unwrap();
    assert_eq!(responses.len(), 1);
    assert!(responses[0].starts_with("SIP/2.0 200 OK\r\n"));
    assert_eq!(calls.get("abc123").unwrap().state(), CallState::Ending);
}

#[test]
fn ended_call_answers_ringing_and_stays_ended() {
    let mut calls = Calls::new();
    calls.handle_sip_message(&source(), INVITE).unwrap();
    calls.handle_sip_message(&source(), BYE).unwrap();
    let responses = calls.handle_sip_message(&source(), INVITE).unwrap();
    assert_eq!(responses.len(), 1);
    assert!(responses[0].starts_with("SIP/2.0 180 Ringing\r\n"));
    assert_eq!(calls.get("abc123").unwrap().state(), CallState::Ending);
}

#[test]
fn other_method_in_progress_is_answered_with_ok() {
    let mut calls = Calls::new();
    calls.handle_sip_message(&source(), INVITE).unwrap();
    let ack = "ACK sip:svc@10.0.0.5:5060 SIP/2.0\r\nCall-ID: abc123\r\nCSeq: 1 ACK\r\n\r\n";
    let responses = calls.handle_sip_message(&source(), ack).unwrap();
    assert_eq!(responses.len(), 1);
    assert!(responses[0].starts_with("SIP/2.0 200 OK\r\n"));
    assert!(responses[0].contains("CSeq: 1 ACK\r\n"));
    assert_eq!(calls.get("abc123").unwrap().state(), CallState::InProgress);
}

#[test]
fn known_call_keeps_its_first_source() {
    let mut calls = Calls::new();
    calls.handle_sip_message(&source(), INVITE).unwrap();
    let other = SourceAddress::new("10.0.0.77", 9).unwrap();
    let responses = calls.handle_sip_message(&other, BYE).unwrap();
    assert!(responses[0].contains("To: service <sip:service@10.0.0.9:5070>"));
    assert_eq!(calls.get("abc123").unwrap().source(), &source());
}

#[test]
fn calls_are_kept_apart_by_identity() {
    let mut calls = Calls::new();
    calls.handle_sip_message(&source(), INVITE).unwrap();
    let text = "INVITE sip:svc@10.0.0.5:5060 SIP/2.0\r\nCall-ID: other\r\nCSeq: 5 INVITE\r\n\r\n";
    calls.handle_sip_message(&source(), text).unwrap();
    calls.handle_sip_message(&source(), BYE).unwrap();
    assert_eq!(calls.len(), 2);
    assert_eq!(calls.get("abc123").unwrap().state(), CallState::Ending);
    assert_eq!(calls.get("other").unwrap().state(), CallState::InProgress);
    assert_eq!(calls.get("other").unwrap().cseq(), 5);
    assert!(calls.get("nobody").is_none());
}

#[test]
fn handle_request_renders_what_apply_decides() {
    let mut calls = Calls::new();
    let request = ReqMessage::parse(INVITE).unwrap();
    let texts = calls.handle_request(&source(), &request).unwrap();
    assert_eq!(texts.len(), 2);
    let call = calls.get("abc123").unwrap();
    assert_eq!(texts[0], call.create_response(ResType::SessionProgress, "INVITE").unwrap());
    assert_eq!(texts[1], call.create_response(ResType::Okay, "INVITE").unwrap());
}

#[test]
fn transition_table() {
    let all = [
        ReqMethod::Register,
        ReqMethod::Invite,
        ReqMethod::Ack,
        ReqMethod::Bye,
        ReqMethod::Cancel,
        ReqMethod::Update,
        ReqMethod::Refer,
        ReqMethod::Prack,
        ReqMethod::Subscribe,
        ReqMethod::Notify,
        ReqMethod::Publish,
        ReqMethod::Message,
        ReqMethod::Info,
        ReqMethod::Options,
    ];
    for method in all {
        let expected = match method {
            ReqMethod::Invite => (vec![ResType::SessionProgress, ResType::Okay], CallState::InProgress),
            ReqMethod::Bye => (vec![ResType::Okay], CallState::Ending),
            _ => (vec![], CallState::Initializing),
        };
        assert_eq!(step(CallState::Initializing, method), expected);
        assert_eq!(step(CallState::Trying, method), (vec![ResType::Ringing], CallState::Trying));
        let expected = match method {
            ReqMethod::Bye => (vec![ResType::Okay], CallState::Ending),
            _ => (vec![ResType::Okay], CallState::InProgress),
        };
        assert_eq!(step(CallState::InProgress, method), expected);
        assert_eq!(step(CallState::Ending, method), (vec![ResType::Ringing], CallState::Ending));
    }
}

#[test]
fn errors_in_words() {
    assert_eq!(SipError::ResponseMessage.to_string(), "Could not create response for provided request");
    assert_eq!(SipError::InvalidUri.to_string(), "Invalid URI");
    assert_eq!(SipError::MalformedHeader.to_string(), "Malformed header");
    assert_eq!(SipError::MalformedRequest.to_string(), "Malformed request");
    assert_eq!(SipError::MissingCallId.to_string(), "Missing Call-ID header");
    assert_eq!(SipError::MissingOrInvalidCseq.to_string(), "Missing or invalid CSeq header");
    assert_eq!(SipError::UnknownMethod.to_string(), "Invalid Request Method");
}

#[test]
fn source_address_is_the_text_of_an_ip_address() {
    for host in ["10.0.0.9", "::1", "2001:DB8::1", "::ffff:192.0.2.1", "fe80::a:b"] {
        let address = SourceAddress::new(host, 5060).unwrap();
        assert_eq!(address.host(), host);
        assert_eq!(address.port(), 5060);
        assert_eq!(address.clone(), address);
    }
    for host in ["", "localhost", "10.0.0.9 ", " 10.0.0.9", "10.0.0.9\r\nVia: x", "10.0.0.9\n", "[::1]", "1.2.3.4>", "fe80::1%eth0"] {
        assert_eq!(SourceAddress::new(host, 5060), None, "{:?}", host);
    }
}

#[test]
fn call_id_is_taken_trimmed() {
    let mut calls = Calls::new();
    let text = "INVITE sip:svc@10.0.0.5:5060 SIP/2.0\r\nCall-ID:   abc123 \t \r\nCSeq: 1 INVITE  \r\n\r\n";
    let responses = calls.handle_sip_message(&source(), text).unwrap();
    assert!(responses[0].contains("\r\nCall-ID: abc123\r\n"));
    assert_eq!(calls.get("abc123").unwrap().call_id(), "abc123");
}
