use moshi_moshi::parser::request::ResType;
use moshi_moshi::response::render;
use moshi_moshi::text::{split_lines, to_chars};

const KINDS: [(ResType, u16, &str); 15] = [
    (ResType::Trying, 100, "Trying"),
    (ResType::Ringing, 180, "Ringing"),
    (ResType::SessionProgress, 183, "Session Progress"),
    (ResType::Okay, 200, "OK"),
    (ResType::BadRequest, 400, "Bad Request"),
    (ResType::Unauthorized, 401, "Unauthorized"),
    (ResType::Forbidden, 403, "Forbidden"),
    (ResType::NotFound, 404, "Not Found"),
    (ResType::RequestTimeout, 408, "Request Timeout"),
    (ResType::TemporarilyUnavailable, 480, "Temporarily Unavailable"),
    (ResType::BusyHere, 486, "Busy Here"),
    (ResType::RequestTerminated, 487, "Request Terminated"),
    (ResType::InternalServerError, 500, "Internal Server Error"),
    (ResType::BadGateway, 502, "Bad Gateway"),
    (ResType::ServiceUnavailable, 503, "Service Unavailable"),
];

#[test]
fn codes_and_reasons() {
    for (kind, code, reason) in KINDS {
        assert_eq!(kind.code(), code);
        assert_eq!(kind.reason(), reason);
        assert_eq!(kind.to_string(), format!("{} {}", code, reason));
    }
}

#[test]
fn rendered_text_is_exact() {
    let text = render("call-77@host", 4294967295, "192.0.2.1", 65535, ResType::BusyHere, "INVITE");
    assert_eq!(
        text,
        "SIP/2.0 486 Busy Here\r\n\
         Via: SIP/2.0/UDP 192.168.1.146:5070;branch=z9hG4bK-10274-1-0\r\n\
         From: sipp <sip:sipp@192.168.1.146:5070>;tag=10274SIPpTag001\r\n\
         To: service <sip:service@192.0.2.1:65535>;tag=10273SIPpTag011\r\n\
         Call-ID: call-77@host\r\n\
         CSeq: 4294967295 INVITE\r\n\
         Contact: <sip:192.0.2.1:65535;transport=UDP>\r\n\
         Content-Length: 0\r\n\r\n"
    );
}

#[test]
fn rendered_numbers_have_no_padding() {
    let text = render("x", 0, "h", 0, ResType::Trying, "BYE");
    assert!(text.contains("CSeq: 0 BYE\r\n"));
    assert!(text.contains("<sip:service@h:0>"));
    let text = render("x", 10, "h", 100, ResType::Trying, "BYE");
    assert!(text.contains("CSeq: 10 BYE\r\n"));
    assert!(text.contains("<sip:h:100;transport=UDP>"));
}

#[test]
fn every_kind_has_one_status_line_one_call_id_and_no_body() {
    for (kind, code, reason) in KINDS {
        let text = render("abc123", 1, "10.0.0.9", 5070, kind, "INVITE");
        let lines = split_lines(&text);
        assert_eq!(lines.len(), 10);
        assert_eq!(lines[0], format!("SIP/2.0 {} {}", code, reason));
        assert_eq!(lines.iter().filter(|l| l.starts_with("SIP/2.0 ")).count(), 1);
        assert_eq!(lines.iter().filter(|l| l.starts_with("Call-ID:")).count(), 1);
        assert_eq!(lines[4], "Call-ID: abc123");
        assert_eq!(lines.iter().filter(|l| l.starts_with("Content-Length:")).count(), 1);
        assert_eq!(lines[7], "Content-Length: 0");
        assert!(text.starts_with(&format!("SIP/2.0 {} {}\r\n", code, reason)));
        assert!(text.ends_with("Content-Length: 0\r\n\r\n"));
        assert_eq!(lines[8], "");
        assert_eq!(lines[9], "");
    }
}

#[test]
fn a_method_with_a_terminator_adds_a_line() {
    let text = render("abc123", 1, "h", 1, ResType::Okay, "X\r\nCall-ID: other");
    let lines = split_lines(&text);
    assert_eq!(lines.iter().filter(|l| l.starts_with("Call-ID:")).count(), 2);
}

#[test]
fn lines_are_split_at_carriage_return_line_feed() {
    assert_eq!(split_lines(""), vec![""]);
    assert_eq!(split_lines("a"), vec!["a"]);
    assert_eq!(split_lines("a\r\n"), vec!["a", ""]);
    assert_eq!(split_lines("\r\n"), vec!["", ""]);
    assert_eq!(split_lines("a\r\nb"), vec!["a", "b"]);
    assert_eq!(split_lines("a\r\r\nb\n\rc\r"), vec!["a\r", "b\n\rc\r"]);
    assert_eq!(split_lines("\r\n\r\n"), vec!["", "", ""]);
    assert_eq!(split_lines("\u{e9}\r\n\u{1f600}x"), vec!["\u{e9}", "\u{1f600}x"]);
    for text in ["", "a\r\nb", "\r\n\r\n", "x\ry\nz\r\n", "\r\r\n\n"] {
        let expected: Vec<&str> = text.split("\r\n").collect();
        assert_eq!(split_lines(text), expected);
    }
}

#[test]
fn characters_of_a_text() {
    assert_eq!(to_chars("a\u{e9}\u{1f600}"), vec!['a', '\u{e9}', '\u{1f600}']);
    assert!(to_chars("").is_empty());
}
