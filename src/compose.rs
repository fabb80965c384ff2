//! The text of the messages the server writes, each beside the function that builds it.

use vstd::prelude::*;
use vstd::utf8::encode_utf8;

use crate::sip_defs::{HeaderView, PeerAddr, SipHeaderInfo, SIP_PORT, SIP_SERVER_IP_ADDRESS};
use crate::text::{decimal, ip_text, push_decimal, push_ip, push_str};

verus! {

/// A datagram for the transport to send.
pub struct Outbound {
    pub dest: PeerAddr,
    pub text: String,
}

impl View for Outbound {
    type V = (PeerAddr, Seq<char>);

    open spec fn view(&self) -> (PeerAddr, Seq<char>) {
        (self.dest, self.text@)
    }
}

/// The lines that close every bodiless message this server writes.
pub open spec fn tail() -> Seq<char> {
    "User-Agent: TinySIP-Rust\r\nContent-Length: 0\r\n\r\n"@
}

/// `SIP_SERVER_IP_ADDRESS:SIP_PORT`.
pub open spec fn server_host() -> Seq<char> {
    SIP_SERVER_IP_ADDRESS@ + ":"@ + decimal(SIP_PORT as nat)
}

pub fn server_host_text() -> (r: String)
    ensures
        r@ == server_host(),
{
    let mut s = String::from_str(SIP_SERVER_IP_ADDRESS);
    push_str(&mut s, ":");
    push_decimal(&mut s, SIP_PORT as u128);
    s
}

/// `ip:port`, as a socket address is written.
pub open spec fn addr_text(a: PeerAddr) -> Seq<char> {
    ip_text(a.ip) + ":"@ + decimal(a.port as nat)
}

pub fn addr_string(a: PeerAddr) -> (r: String)
    ensures
        r@ == addr_text(a),
{
    let mut s = String::new();
    push_ip(&mut s, a.ip);
    proof {
        assert(s@ =~= ip_text(a.ip));
    }
    push_str(&mut s, ":");
    push_decimal(&mut s, a.port as u128);
    s
}

/// A response built on stored headers, whose Via line carries its own line end where it
/// has one.
pub open spec fn stored_response(status: Seq<char>, h: HeaderView, call_id: Seq<char>) -> Seq<
    char,
> {
    status + h.via + h.from + "\r\n"@ + h.to + "\r\n"@ + "Call-ID: "@ + call_id + "\r\n"@ + h.cseq
        + "\r\n"@ + tail()
}

pub fn stored_response_text(status: &str, h: &SipHeaderInfo, call_id: &str) -> (r: String)
    ensures
        r@ == stored_response(status@, h@, call_id@),
{
    let mut m = String::from_str(status);
    push_str(&mut m, h.via.as_str());
    push_str(&mut m, h.from.as_str());
    push_str(&mut m, "\r\n");
    push_str(&mut m, h.to.as_str());
    push_str(&mut m, "\r\n");
    push_str(&mut m, "Call-ID: ");
    push_str(&mut m, call_id);
    push_str(&mut m, "\r\n");
    push_str(&mut m, h.cseq.as_str());
    push_str(&mut m, "\r\n");
    push_str(&mut m, "User-Agent: TinySIP-Rust\r\nContent-Length: 0\r\n\r\n");
    m
}

/// A response that echoes a request's own header lines.
pub open spec fn echo_response(
    status: Seq<char>,
    via: Seq<char>,
    from: Seq<char>,
    to: Seq<char>,
    call_id: Seq<char>,
    cseq: Seq<char>,
) -> Seq<char> {
    status + via + "\r\n"@ + from + "\r\n"@ + to + "\r\n"@ + "Call-ID: "@ + call_id + "\r\n"@ + cseq
        + "\r\n"@ + tail()
}

pub fn echo_response_text(
    status: &str,
    via: &str,
    from: &str,
    to: &str,
    call_id: &str,
    cseq: &str,
) -> (r: String)
    ensures
        r@ == echo_response(status@, via@, from@, to@, call_id@, cseq@),
{
    let mut m = String::from_str(status);
    push_str(&mut m, via);
    push_str(&mut m, "\r\n");
    push_str(&mut m, from);
    push_str(&mut m, "\r\n");
    push_str(&mut m, to);
    push_str(&mut m, "\r\n");
    push_str(&mut m, "Call-ID: ");
    push_str(&mut m, call_id);
    push_str(&mut m, "\r\n");
    push_str(&mut m, cseq);
    push_str(&mut m, "\r\n");
    push_str(&mut m, "User-Agent: TinySIP-Rust\r\nContent-Length: 0\r\n\r\n");
    m
}

/// The `200 OK` to a REGISTER: its own header lines and its Contact with an expiry.
pub open spec fn register_ok(
    via: Seq<char>,
    from: Seq<char>,
    to: Seq<char>,
    call_id: Seq<char>,
    cseq: Seq<char>,
    contact: Seq<char>,
) -> Seq<char> {
    "SIP/2.0 200 OK\r\n"@ + via + "\r\n"@ + from + "\r\n"@ + to + "\r\n"@ + "Call-ID: "@ + call_id
        + "\r\n"@ + cseq + "\r\n"@ + contact + "\r\n"@ + tail()
}

pub fn register_ok_text(
    via: &str,
    from: &str,
    to: &str,
    call_id: &str,
    cseq: &str,
    contact: &str,
) -> (r: String)
    ensures
        r@ == register_ok(via@, from@, to@, call_id@, cseq@, contact@),
{
    let mut m = String::from_str("SIP/2.0 200 OK\r\n");
    push_str(&mut m, via);
    push_str(&mut m, "\r\n");
    push_str(&mut m, from);
    push_str(&mut m, "\r\n");
    push_str(&mut m, to);
    push_str(&mut m, "\r\n");
    push_str(&mut m, "Call-ID: ");
    push_str(&mut m, call_id);
    push_str(&mut m, "\r\n");
    push_str(&mut m, cseq);
    push_str(&mut m, "\r\n");
    push_str(&mut m, contact);
    push_str(&mut m, "\r\n");
    push_str(&mut m, "User-Agent: TinySIP-Rust\r\nContent-Length: 0\r\n\r\n");
    m
}

/// The body lines of a forwarded response: the SDP with its type and byte length, or an
/// empty body.
pub open spec fn body_part(sdp: Option<Seq<char>>) -> Seq<char> {
    match sdp {
        Some(b) => "Content-Type: application/sdp\r\nContent-Length: "@ + decimal(
            encode_utf8(b).len(),
        ) + "\r\n\r\n"@ + b,
        None => "Content-Length: 0\r\n\r\n"@,
    }
}

pub fn body_part_text(sdp: Option<&str>) -> (r: String)
    ensures
        r@ == body_part(
            match sdp {
                Some(b) => Some(b@),
                None => None,
            },
        ),
{
    match sdp {
        Some(b) => {
            let mut m = String::from_str("Content-Type: application/sdp\r\nContent-Length: ");
            push_decimal(&mut m, b.as_bytes().len() as u128);
            push_str(&mut m, "\r\n\r\n");
            push_str(&mut m, b);
            m
        },
        None => String::from_str("Content-Length: 0\r\n\r\n"),
    }
}

/// A response of the B-leg passed on to the A-leg on its stored headers, with the server's
/// Contact and the body that came with it.
pub open spec fn forwarded_response(
    status: Seq<char>,
    h: HeaderView,
    call_id: Seq<char>,
    body: Seq<char>,
) -> Seq<char> {
    status + h.via + h.from + "\r\n"@ + h.to + "\r\n"@ + "Call-ID: "@ + call_id + "\r\n"@ + h.cseq
        + "\r\n"@ + "Contact: <sip:TinySIP@"@ + server_host() + ">\r\n"@
        + "User-Agent: TinySIP-Rust\r\n"@ + body + "\r\n"@
}

pub fn forwarded_response_text(
    status: &str,
    h: &SipHeaderInfo,
    call_id: &str,
    body: &str,
) -> (r: String)
    ensures
        r@ == forwarded_response(status@, h@, call_id@, body@),
{
    let host = server_host_text();
    let mut m = String::from_str(status);
    push_str(&mut m, h.via.as_str());
    push_str(&mut m, h.from.as_str());
    push_str(&mut m, "\r\n");
    push_str(&mut m, h.to.as_str());
    push_str(&mut m, "\r\n");
    push_str(&mut m, "Call-ID: ");
    push_str(&mut m, call_id);
    push_str(&mut m, "\r\n");
    push_str(&mut m, h.cseq.as_str());
    push_str(&mut m, "\r\n");
    push_str(&mut m, "Contact: <sip:TinySIP@");
    push_str(&mut m, host.as_str());
    push_str(&mut m, ">\r\n");
    push_str(&mut m, "User-Agent: TinySIP-Rust\r\n");
    push_str(&mut m, body);
    push_str(&mut m, "\r\n");
    m
}

/// A request within a dialog: its request line and Via as `head`, then From, To, Call-ID,
/// a CSeq of `number` and `method`, and a Max-Forwards of 70.
pub open spec fn dialog_request(
    head: Seq<char>,
    from: Seq<char>,
    to: Seq<char>,
    call_id: Seq<char>,
    number: nat,
    method: Seq<char>,
) -> Seq<char> {
    head + from + "\r\n"@ + to + "\r\n"@ + "Call-ID: "@ + call_id + "\r\nCSeq: "@ + decimal(number)
        + " "@ + method + "\r\nMax-Forwards: 70\r\n"@ + tail()
}

pub fn dialog_request_text(
    head: &str,
    from: &str,
    to: &str,
    call_id: &str,
    number: u128,
    method: &str,
) -> (r: String)
    ensures
        r@ == dialog_request(head@, from@, to@, call_id@, number as nat, method@),
{
    let mut m = String::from_str(head);
    push_str(&mut m, from);
    push_str(&mut m, "\r\n");
    push_str(&mut m, to);
    push_str(&mut m, "\r\n");
    push_str(&mut m, "Call-ID: ");
    push_str(&mut m, call_id);
    push_str(&mut m, "\r\nCSeq: ");
    push_decimal(&mut m, number);
    push_str(&mut m, " ");
    push_str(&mut m, method);
    push_str(&mut m, "\r\nMax-Forwards: 70\r\n");
    push_str(&mut m, "User-Agent: TinySIP-Rust\r\nContent-Length: 0\r\n\r\n");
    m
}

/// A Via line of the server: its host and a branch of `tag` followed by `number`.
pub open spec fn server_via(tag: Seq<char>, number: nat) -> Seq<char> {
    "Via: SIP/2.0/UDP "@ + server_host() + ";branch="@ + tag + decimal(number)
}

pub fn server_via_text(tag: &str, number: u128) -> (r: String)
    ensures
        r@ == server_via(tag@, number as nat),
{
    let host = server_host_text();
    let mut m = String::from_str("Via: SIP/2.0/UDP ");
    push_str(&mut m, host.as_str());
    push_str(&mut m, ";branch=");
    push_str(&mut m, tag);
    push_decimal(&mut m, number);
    m
}

} // verus!
