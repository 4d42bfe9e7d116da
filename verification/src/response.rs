//! The text of a SIP response.
//!
//! A response is a status line and seven headers, each closed by a line
//! terminator, and an empty line after them. `Via` and `From` are fixed
//! placeholders; nothing of the request is echoed in them.

use crate::parser::request::ResType;
use crate::text::{
    append_decimal, decimal_text, lemma_decimal_plain, lemma_line_then_rest,
    lemma_no_terminator_between, lemma_plain_concat, lines_from, lines_of, no_terminator, plain,
};
use vstd::prelude::*;
use vstd::string::StringExecFns;

verus! {

/// The status line of a response of kind `kind`.
pub open spec fn status_line(kind: ResType) -> Seq<char> {
    "SIP/2.0 "@ + kind.text()
}

/// The `Via` header of every response.
pub open spec fn via_line() -> Seq<char> {
    "Via: SIP/2.0/UDP 192.168.1.146:5070;branch=z9hG4bK-10274-1-0"@
}

/// The `From` header of every response.
pub open spec fn from_line() -> Seq<char> {
    "From: sipp <sip:sipp@192.168.1.146:5070>;tag=10274SIPpTag001"@
}

/// The `To` header of a response that goes to `host` and `port`.
pub open spec fn to_line(host: Seq<char>, port: u16) -> Seq<char> {
    "To: service <sip:service@"@ + host + ":"@ + decimal_text(port as nat)
        + ">;tag=10273SIPpTag011"@
}

/// The `Call-ID` header of a response within the call `call_id`.
pub open spec fn call_id_line(call_id: Seq<char>) -> Seq<char> {
    "Call-ID: "@ + call_id
}

/// The `CSeq` header of a response to the request numbered `cseq` of
/// method `method`.
pub open spec fn cseq_line(cseq: u32, method: Seq<char>) -> Seq<char> {
    "CSeq: "@ + decimal_text(cseq as nat) + " "@ + method
}

/// The `Contact` header of a response that goes to `host` and `port`.
pub open spec fn contact_line(host: Seq<char>, port: u16) -> Seq<char> {
    "Contact: <sip:"@ + host + ":"@ + decimal_text(port as nat) + ";transport=UDP>"@
}

/// The `Content-Length` header of every response: there is no body.
pub open spec fn content_length_line() -> Seq<char> {
    "Content-Length: 0"@
}

/// The eight lines of a response, in their fixed order.
pub open spec fn response_lines(
    call_id: Seq<char>,
    cseq: u32,
    host: Seq<char>,
    port: u16,
    kind: ResType,
    method: Seq<char>,
) -> Seq<Seq<char>> {
    seq![
        status_line(kind),
        via_line(),
        from_line(),
        to_line(host, port),
        call_id_line(call_id),
        cseq_line(cseq, method),
        contact_line(host, port),
        content_length_line(),
    ]
}

/// The lines of `lines` one after the other, each closed by a line
/// terminator.
pub open spec fn terminated(lines: Seq<Seq<char>>) -> Seq<char>
    decreases lines.len(),
{
    if lines.len() == 0 {
        Seq::empty()
    } else {
        terminated(lines.drop_last()) + lines.last() + "\r\n"@
    }
}

/// The whole text of a response: its eight lines and an empty line.
pub open spec fn response_text(
    call_id: Seq<char>,
    cseq: u32,
    host: Seq<char>,
    port: u16,
    kind: ResType,
    method: Seq<char>,
) -> Seq<char> {
    terminated(response_lines(call_id, cseq, host, port, kind, method)) + "\r\n"@
}

/// The status line of a response of kind `kind`.
fn make_status_line(kind: ResType) -> (line: String)
    ensures
        line@ == status_line(kind),
{
    let mut line = String::from_str("SIP/2.0 ");
    append_decimal(&mut line, kind.code() as u32);
    line.append(" ");
    line.append(kind.reason());
    assert(line@ =~= status_line(kind));
    line
}

/// The `To` header of a response that goes to `host` and `port`.
fn make_to_line(host: &str, port: u16) -> (line: String)
    ensures
        line@ == to_line(host@, port),
{
    let mut line = String::from_str("To: service <sip:service@");
    line.append(host);
    line.append(":");
    append_decimal(&mut line, port as u32);
    line.append(">;tag=10273SIPpTag011");
    line
}

/// The `Call-ID` header of a response within the call `call_id`.
fn make_call_id_line(call_id: &str) -> (line: String)
    ensures
        line@ == call_id_line(call_id@),
{
    let mut line = String::from_str("Call-ID: ");
    line.append(call_id);
    line
}

/// The `CSeq` header of a response to the request numbered `cseq` of
/// method `method`.
fn make_cseq_line(cseq: u32, method: &str) -> (line: String)
    ensures
        line@ == cseq_line(cseq, method@),
{
    let mut line = String::from_str("CSeq: ");
    append_decimal(&mut line, cseq);
    line.append(" ");
    line.append(method);
    line
}

/// The `Contact` header of a response that goes to `host` and `port`.
fn make_contact_line(host: &str, port: u16) -> (line: String)
    ensures
        line@ == contact_line(host@, port),
{
    let mut line = String::from_str("Contact: <sip:");
    line.append(host);
    line.append(":");
    append_decimal(&mut line, port as u32);
    line.append(";transport=UDP>");
    line
}

/// Appends a line and its terminator to a text that holds the lines `done`.
fn append_line(text: &mut String, line: &str, Ghost(done): Ghost<Seq<Seq<char>>>)
    requires
        old(text)@ == terminated(done),
    ensures
        final(text)@ == terminated(done.push(line@)),
{
    text.append(line);
    text.append("\r\n");
    assert(done.push(line@).drop_last() =~= done);
    assert(final(text)@ =~= terminated(done) + line@ + "\r\n"@);
}

/// Puts together the text of a response.
pub fn render(call_id: &str, cseq: u32, host: &str, port: u16, kind: ResType, method: &str) -> (text:
    String)
    ensures
        text@ == response_text(call_id@, cseq, host@, port, kind, method@),
{
    let ghost lines = response_lines(call_id@, cseq, host@, port, kind, method@);
    let mut text = String::new();
    let status = make_status_line(kind);
    append_line(&mut text, status.as_str(), Ghost(lines.take(0)));
    assert(lines.take(0).push(lines[0]) =~= lines.take(1));
    append_line(
        &mut text,
        "Via: SIP/2.0/UDP 192.168.1.146:5070;branch=z9hG4bK-10274-1-0",
        Ghost(lines.take(1)),
    );
    assert(lines.take(1).push(lines[1]) =~= lines.take(2));
    append_line(
        &mut text,
        "From: sipp <sip:sipp@192.168.1.146:5070>;tag=10274SIPpTag001",
        Ghost(lines.take(2)),
    );
    assert(lines.take(2).push(lines[2]) =~= lines.take(3));
    let to = make_to_line(host, port);
    append_line(&mut text, to.as_str(), Ghost(lines.take(3)));
    assert(lines.take(3).push(lines[3]) =~= lines.take(4));
    let id = make_call_id_line(call_id);
    append_line(&mut text, id.as_str(), Ghost(lines.take(4)));
    assert(lines.take(4).push(lines[4]) =~= lines.take(5));
    let seq = make_cseq_line(cseq, method);
    append_line(&mut text, seq.as_str(), Ghost(lines.take(5)));
    assert(lines.take(5).push(lines[5]) =~= lines.take(6));
    let contact = make_contact_line(host, port);
    append_line(&mut text, contact.as_str(), Ghost(lines.take(6)));
    assert(lines.take(6).push(lines[6]) =~= lines.take(7));
    append_line(&mut text, "Content-Length: 0", Ghost(lines.take(7)));
    assert(lines.take(7).push(lines[7]) =~= lines);
    text.append("\r\n");
    text
}

/// Lines without line terminators, each closed by one, are read back as
/// they are; what stands behind them is read after them.
pub proof fn lemma_terminated_lines(lines: Seq<Seq<char>>, post: Seq<char>)
    requires
        forall|i: int| 0 <= i < lines.len() ==> no_terminator(#[trigger] lines[i]),
    ensures
        lines_from(terminated(lines) + post, 0) == lines + lines_from(
            terminated(lines) + post,
            terminated(lines).len() as int,
        ),
    decreases lines.len(),
{
    let text = terminated(lines) + post;
    if lines.len() == 0 {
        assert(lines + lines_from(text, 0) =~= lines_from(text, 0));
    } else {
        let front = lines.drop_last();
        let line = lines.last();
        let pre = terminated(front);
        lemma_terminated_lines(front, line + "\r\n"@ + post);
        assert(pre + (line + "\r\n"@ + post) =~= text);
        lemma_line_then_rest(pre, line, post);
        assert(pre + line + "\r\n"@ + post =~= text);
        reveal_strlit("\r\n");
        assert(terminated(lines).len() == pre.len() + line.len() + 2);
        assert(front + (seq![line] + lines_from(text, terminated(lines).len() as int)) =~= lines
            + lines_from(text, terminated(lines).len() as int));
    }
}

/// The reason phrase of every kind holds neither a carriage return nor a
/// line feed.
proof fn lemma_reason_plain(kind: ResType)
    ensures
        plain(kind.spec_reason()),
{
    reveal_strlit("Trying");
    reveal_strlit("Ringing");
    reveal_strlit("Session Progress");
    reveal_strlit("OK");
    reveal_strlit("Bad Request");
    reveal_strlit("Unauthorized");
    reveal_strlit("Forbidden");
    reveal_strlit("Not Found");
    reveal_strlit("Request Timeout");
    reveal_strlit("Temporarily Unavailable");
    reveal_strlit("Busy Here");
    reveal_strlit("Request Terminated");
    reveal_strlit("Internal Server Error");
    reveal_strlit("Bad Gateway");
    reveal_strlit("Service Unavailable");
}

/// No line of a response holds a line terminator, as long as the call's
/// identity, the host and the method hold none.
pub proof fn lemma_response_lines_whole(
    call_id: Seq<char>,
    cseq: u32,
    host: Seq<char>,
    port: u16,
    kind: ResType,
    method: Seq<char>,
)
    requires
        no_terminator(call_id),
        no_terminator(host),
        no_terminator(method),
    ensures
        forall|i: int|
            0 <= i < 8 ==> no_terminator(
                #[trigger] response_lines(call_id, cseq, host, port, kind, method)[i],
            ),
{
    let none = Seq::<char>::empty();
    assert(plain(none));
    assert(no_terminator(none));
    assert(no_terminator(status_line(kind))) by {
        reveal_strlit("SIP/2.0 ");
        reveal_strlit(" ");
        lemma_reason_plain(kind);
        lemma_decimal_plain(kind.spec_code() as nat);
        lemma_plain_concat(decimal_text(kind.spec_code() as nat), " "@);
        lemma_plain_concat(decimal_text(kind.spec_code() as nat) + " "@, kind.spec_reason());
        lemma_plain_concat("SIP/2.0 "@, kind.text());
        lemma_no_terminator_between(status_line(kind), none, none);
        assert(status_line(kind) + none + none =~= status_line(kind));
    }
    assert(no_terminator(via_line())) by {
        reveal_strlit("Via: SIP/2.0/UDP 192.168.1.146:5070;branch=z9hG4bK-10274-1-0");
        lemma_no_terminator_between(via_line(), none, none);
        assert(via_line() + none + none =~= via_line());
    }
    assert(no_terminator(from_line())) by {
        reveal_strlit("From: sipp <sip:sipp@192.168.1.146:5070>;tag=10274SIPpTag001");
        lemma_no_terminator_between(from_line(), none, none);
        assert(from_line() + none + none =~= from_line());
    }
    assert(no_terminator(to_line(host, port))) by {
        reveal_strlit("To: service <sip:service@");
        reveal_strlit(":");
        reveal_strlit(">;tag=10273SIPpTag011");
        let back = ":"@ + decimal_text(port as nat) + ">;tag=10273SIPpTag011"@;
        lemma_decimal_plain(port as nat);
        lemma_plain_concat(":"@, decimal_text(port as nat));
        lemma_plain_concat(":"@ + decimal_text(port as nat), ">;tag=10273SIPpTag011"@);
        lemma_no_terminator_between("To: service <sip:service@"@, host, back);
        assert("To: service <sip:service@"@ + host + back =~= to_line(host, port));
    }
    assert(no_terminator(call_id_line(call_id))) by {
        reveal_strlit("Call-ID: ");
        lemma_no_terminator_between("Call-ID: "@, call_id, none);
        assert("Call-ID: "@ + call_id + none =~= call_id_line(call_id));
    }
    assert(no_terminator(cseq_line(cseq, method))) by {
        reveal_strlit("CSeq: ");
        reveal_strlit(" ");
        let front = "CSeq: "@ + decimal_text(cseq as nat) + " "@;
        lemma_decimal_plain(cseq as nat);
        lemma_plain_concat("CSeq: "@, decimal_text(cseq as nat));
        lemma_plain_concat("CSeq: "@ + decimal_text(cseq as nat), " "@);
        lemma_no_terminator_between(front, method, none);
        assert(front + method + none =~= cseq_line(cseq, method));
    }
    assert(no_terminator(contact_line(host, port))) by {
        reveal_strlit("Contact: <sip:");
        reveal_strlit(":");
        reveal_strlit(";transport=UDP>");
        let back = ":"@ + decimal_text(port as nat) + ";transport=UDP>"@;
        lemma_decimal_plain(port as nat);
        lemma_plain_concat(":"@, decimal_text(port as nat));
        lemma_plain_concat(":"@ + decimal_text(port as nat), ";transport=UDP>"@);
        lemma_no_terminator_between("Contact: <sip:"@, host, back);
        assert("Contact: <sip:"@ + host + back =~= contact_line(host, port));
    }
    assert(no_terminator(content_length_line())) by {
        reveal_strlit("Content-Length: 0");
        lemma_no_terminator_between(content_length_line(), none, none);
        assert(content_length_line() + none + none =~= content_length_line());
    }
}

/// Split at its line terminators, the text of a response gives back its
/// eight lines, in order, and two empty lines after them: the empty line
/// that ends the headers, and the empty body.
pub proof fn lemma_response_reads_back(
    call_id: Seq<char>,
    cseq: u32,
    host: Seq<char>,
    port: u16,
    kind: ResType,
    method: Seq<char>,
)
    requires
        no_terminator(call_id),
        no_terminator(host),
        no_terminator(method),
    ensures
        lines_of(response_text(call_id, cseq, host, port, kind, method)) == response_lines(
            call_id,
            cseq,
            host,
            port,
            kind,
            method,
        ) + seq![Seq::<char>::empty(), Seq::<char>::empty()],
{
    let lines = response_lines(call_id, cseq, host, port, kind, method);
    let text = response_text(call_id, cseq, host, port, kind, method);
    let none = Seq::<char>::empty();
    let head = terminated(lines);
    lemma_response_lines_whole(call_id, cseq, host, port, kind, method);
    lemma_terminated_lines(lines, "\r\n"@);
    assert(no_terminator(none));
    lemma_line_then_rest(head, none, none);
    assert(head + none + "\r\n"@ + none =~= text);
    reveal_strlit("\r\n");
    assert(text.len() == head.len() + 2);
    assert(lines_from(text, text.len() as int) =~= seq![none]) by {
        assert(text.subrange(text.len() as int, text.len() as int) =~= none);
    }
    assert(lines + (seq![none] + seq![none]) =~= lines + seq![none, none]);
}

/// Whether the response text `text` has exactly one status line, that of
/// kind `kind`, and has it first; exactly one `Call-ID` header, which bears
/// `call_id`; and exactly one `Content-Length` header, which says `0` and
/// is followed by the empty line that ends the headers and an empty body.
pub open spec fn has_one_of_each(text: Seq<char>, call_id: Seq<char>, kind: ResType) -> bool {
    let lines = lines_of(text);
    &&& (status_line(kind) + "\r\n"@).is_prefix_of(text)
    &&& "Content-Length: 0\r\n\r\n"@.is_suffix_of(text)
    &&& lines.len() == 10
    &&& lines[0] == status_line(kind)
    &&& lines[4] == "Call-ID: "@ + call_id
    &&& lines[7] == "Content-Length: 0"@
    &&& lines[8].len() == 0
    &&& lines[9].len() == 0
    &&& forall|i: int|
        0 <= i < lines.len() ==> ("SIP/2.0 "@.is_prefix_of(#[trigger] lines[i]) <==> i == 0)
    &&& forall|i: int|
        0 <= i < lines.len() ==> ("Call-ID:"@.is_prefix_of(#[trigger] lines[i]) <==> i == 4)
    &&& forall|i: int|
        0 <= i < lines.len() ==> ("Content-Length:"@.is_prefix_of(#[trigger] lines[i]) <==> i
            == 7)
}

/// A response has exactly one status line, exactly one `Call-ID` header,
/// which bears the identity of the call, and exactly one `Content-Length`
/// header, which says `0`.
///
/// This holds of calls, hosts and methods without a line terminator in
/// them: a method such as `X`, a terminator and `Call-ID: y` would add a
/// line to the response. The text of an IP address holds none.
pub proof fn lemma_response_has_one_of_each(
    call_id: Seq<char>,
    cseq: u32,
    host: Seq<char>,
    port: u16,
    kind: ResType,
    method: Seq<char>,
)
    requires
        no_terminator(call_id),
        no_terminator(host),
        no_terminator(method),
    ensures
        has_one_of_each(
            response_text(call_id, cseq, host, port, kind, method),
            call_id,
            kind,
        ),
{
    lemma_response_reads_back(call_id, cseq, host, port, kind, method);
    let text = response_text(call_id, cseq, host, port, kind, method);
    let lines = lines_of(text);
    let all = response_lines(call_id, cseq, host, port, kind, method);
    reveal_strlit("SIP/2.0 ");
    reveal_strlit("Call-ID:");
    reveal_strlit("Call-ID: ");
    reveal_strlit("Content-Length:");
    reveal_strlit("Content-Length: 0");
    reveal_strlit("Content-Length: 0\r\n\r\n");
    reveal_strlit("\r\n");
    reveal_strlit("Via: SIP/2.0/UDP 192.168.1.146:5070;branch=z9hG4bK-10274-1-0");
    reveal_strlit("From: sipp <sip:sipp@192.168.1.146:5070>;tag=10274SIPpTag001");
    reveal_strlit("To: service <sip:service@");
    reveal_strlit("CSeq: ");
    reveal_strlit("Contact: <sip:");
    assert(lines[0][0] == 'S' && lines[0].len() >= 8);
    assert(lines[1][0] == 'V');
    assert(lines[2][0] == 'F');
    assert(lines[3][0] == 'T');
    assert(lines[4][1] == 'a' && lines[4].len() >= 9);
    assert(lines[5][1] == 'S');
    assert(lines[6][4] == 'a');
    assert(lines[7] == "Content-Length: 0"@);
    assert(lines[8].len() == 0);
    assert(lines[9].len() == 0);
    assert("SIP/2.0 "@ =~= lines[0].subrange(0, 8));
    assert("Call-ID:"@ =~= lines[4].subrange(0, 8));
    assert("Content-Length:"@ =~= lines[7].subrange(0, 15));
    assert forall|i: int| 0 <= i < 10 implies ("SIP/2.0 "@.is_prefix_of(#[trigger] lines[i]) <==> i
        == 0) by {
        if i != 0 && "SIP/2.0 "@.is_prefix_of(lines[i]) {
            assert(lines[i].subrange(0, 8)[0] == 'S');
        }
    }
    assert forall|i: int| 0 <= i < 10 implies ("Call-ID:"@.is_prefix_of(#[trigger] lines[i]) <==> i
        == 4) by {
        if i != 4 && "Call-ID:"@.is_prefix_of(lines[i]) {
            assert(lines[i].subrange(0, 8)[0] == 'C');
            assert(lines[i].subrange(0, 8)[1] == 'a');
        }
    }
    assert forall|i: int| 0 <= i < 10 implies ("Content-Length:"@.is_prefix_of(
        #[trigger] lines[i],
    ) <==> i == 7) by {
        if i != 7 && "Content-Length:"@.is_prefix_of(lines[i]) {
            assert(lines[i].subrange(0, 15)[0] == 'C');
            assert(lines[i].subrange(0, 15)[1] == 'o');
            assert(lines[i].subrange(0, 15)[4] == 'e');
        }
    }
    lemma_response_ends(all);
    assert((status_line(kind) + "\r\n"@).is_prefix_of(text)) by {
        lemma_terminated_starts(all);
        let head = status_line(kind) + "\r\n"@;
        assert(head.is_prefix_of(terminated(all)));
        assert(head =~= text.subrange(0, head.len() as int)) by {
            assert(head =~= terminated(all).subrange(0, head.len() as int));
        }
    }
}

/// Lines that are closed by line terminators start with the first line and
/// its terminator.
proof fn lemma_terminated_starts(lines: Seq<Seq<char>>)
    requires
        lines.len() > 0,
    ensures
        (lines[0] + "\r\n"@).is_prefix_of(terminated(lines)),
    decreases lines.len(),
{
    let head = lines[0] + "\r\n"@;
    if lines.len() == 1 {
        assert(terminated(lines.drop_last()) =~= Seq::<char>::empty());
        assert(lines.last() == lines[0]);
        assert(terminated(lines) =~= head);
        assert(head =~= terminated(lines).subrange(0, head.len() as int));
    } else {
        lemma_terminated_starts(lines.drop_last());
        let front = terminated(lines.drop_last());
        assert(lines.drop_last()[0] == lines[0]);
        assert(head =~= front.subrange(0, head.len() as int));
        assert(head =~= terminated(lines).subrange(0, head.len() as int));
    }
}

/// The text of lines that end in the line `Content-Length: 0`, closed by an
/// empty line, ends in that line, its terminator and one terminator more.
proof fn lemma_response_ends(lines: Seq<Seq<char>>)
    requires
        lines.len() > 0,
        lines.last() == "Content-Length: 0"@,
    ensures
        "Content-Length: 0\r\n\r\n"@.is_suffix_of(terminated(lines) + "\r\n"@),
{
    reveal_strlit("Content-Length: 0");
    reveal_strlit("Content-Length: 0\r\n\r\n");
    reveal_strlit("\r\n");
    let text = terminated(lines) + "\r\n"@;
    let tail = "Content-Length: 0\r\n\r\n"@;
    assert(tail =~= lines.last() + "\r\n"@ + "\r\n"@);
    assert(text =~= terminated(lines.drop_last()) + tail);
    assert(tail =~= text.subrange(text.len() - tail.len(), text.len() as int));
}

} // verus!
