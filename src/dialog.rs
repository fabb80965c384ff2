//! The per-call dialog state machine: one step on one slot of the call table for one
//! inbound message, with the datagrams it sends.

use vstd::prelude::*;
use vstd::utf8::encode_utf8;

use crate::compose::{
    addr_string, addr_text, body_part, body_part_text, dialog_request, dialog_request_text,
    echo_response, echo_response_text, forwarded_response, forwarded_response_text, server_host,
    server_host_text, server_via, server_via_text, stored_response, stored_response_text,
    Outbound,
};
use crate::parsing::{
    cseq_number_of, extract_cseq_number, extract_username_from_uri, first_line, first_line_of,
    get_cseq_header,
    get_max_forwards, get_sdp_body, header_line, max_forwards_of, sdp_body_of, username_of,
};
use crate::rewrite::{
    a_leg_via, a_leg_via_text, b_leg_id, b_leg_id_text, call_id_of, contact_of, contact_uri,
    contact_uri_text, contains_text, cseq_of, from_of, or_empty, read_headers, replace_all,
    replace_text, to_of, via_of, MsgHeaders,
};
use crate::sip_defs::{
    get_registered_addr, registered_addr, Call, CallState, CallView, HeaderView, LocationEntry,
    MediaState, PeerAddr, SipHeaderInfo, A_LEG, B_LEG, REQUEST_METHOD, STATUS_CODE,
};
use crate::text::{
    chars_of, contains, decimal, ip_text, parse_decimal, parse_unsigned, push_decimal, push_ip,
    push_str, same_text,
};

verus! {

/// What the state machine reads of one inbound message: the kind of its first line, the
/// method or status code, whether it carries SDP, its sender, and its text.
pub struct Inbound {
    pub message_type: i32,
    pub method_or_code: String,
    pub has_sdp: bool,
    pub source: PeerAddr,
    pub raw: String,
}

pub struct MsgView {
    pub kind: i32,
    pub token: Seq<char>,
    pub has_sdp: bool,
    pub source: PeerAddr,
    pub raw: Seq<char>,
}

impl View for Inbound {
    type V = MsgView;

    open spec fn view(&self) -> MsgView {
        MsgView {
            kind: self.message_type,
            token: self.method_or_code@,
            has_sdp: self.has_sdp,
            source: self.source,
            raw: self.raw@,
        }
    }
}

/// What one step does: the slot afterwards, the datagrams to send, in order, and whether
/// the slot is to be released.
pub struct Outcome {
    pub call: CallView,
    pub sends: Seq<(PeerAddr, Seq<char>)>,
    pub release: bool,
}

pub open spec fn sends_view(v: Seq<Outbound>) -> Seq<(PeerAddr, Seq<char>)> {
    v.map_values(|o: Outbound| o@)
}

pub open spec fn outcome_is(call: CallView, r: (Vec<Outbound>, bool), o: Outcome) -> bool {
    &&& call == o.call
    &&& sends_view(r.0@) == o.sends
    &&& r.1 == o.release
}

pub open spec fn unchanged(c: CallView) -> Outcome {
    Outcome { call: c, sends: seq![], release: false }
}

/// The INVITE that the server sends to the callee.
pub open spec fn invite_to_b(
    u: Seq<char>,
    addr: PeerAddr,
    b_via: Seq<char>,
    from: Seq<char>,
    b_to: Seq<char>,
    b_uuid: Seq<char>,
    b_cseq: Seq<char>,
    max_forwards: nat,
    sdp: Seq<char>,
) -> Seq<char> {
    "INVITE sip:"@ + u + "@"@ + addr_text(addr) + " SIP/2.0\r\n"@ + b_via + "\r\n"@ + from + "\r\n"@
        + b_to + "\r\n"@ + "Call-ID: "@ + b_uuid + "\r\n"@ + b_cseq + "\r\n"@ + "Max-Forwards: "@
        + decimal(max_forwards) + "\r\n"@ + "Contact: <sip:TinySIP@"@ + server_host() + ">\r\n"@
        + "User-Agent: TinySIP-Rust\r\nContent-Type: application/sdp\r\nContent-Length: "@
        + decimal(encode_utf8(sdp).len()) + "\r\n\r\n"@ + sdp
}

/// The Max-Forwards of the INVITE to the callee: the inbound one less one, not below zero,
/// where there is one, and 69 otherwise.
pub open spec fn onward_max_forwards(raw: Seq<char>) -> nat {
    match max_forwards_of(raw) {
        Some(v) => if v >= 1 {
            (v - 1) as nat
        } else {
            0
        },
        None => 69,
    }
}

/// The A-leg slot as an inbound INVITE sets it up, before the callee is looked up.
pub open spec fn invite_setup(c: CallView, m: MsgView) -> CallView {
    let a_uuid = call_id_of(m.raw);
    CallView {
        a_leg_addr: Some(m.source),
        a_leg_uuid: a_uuid,
        b_leg_uuid: b_leg_id(a_uuid),
        a_leg_header: HeaderView {
            via: a_leg_via(via_of(m.raw), m.source),
            from: from_of(m.raw),
            to: to_of(m.raw),
            cseq: cseq_of(m.raw),
        },
        a_leg_contact: contact_uri(contact_of(m.raw), c.a_leg_contact),
        a_leg_media: if m.has_sdp {
            MediaState { remote_media: true, ..c.a_leg_media }
        } else {
            c.a_leg_media
        },
        b_leg_media: if m.has_sdp {
            MediaState { local_media: true, ..c.b_leg_media }
        } else {
            c.b_leg_media
        },
        ..c
    }
}

/// An INVITE from the A-leg on an idle slot: the A-leg is recorded; the callee named in To
/// is looked up; a registered callee gets the INVITE and the caller `100 Trying`, and the
/// slot goes to `Routing`; an unknown or unregistered callee gets the caller `404 Not
/// Found`; and the slot is released where no callee could be found, or no user in To.
pub open spec fn invite_outcome(
    c: CallView,
    m: MsgView,
    dir: Seq<LocationEntry>,
    cseq: nat,
    branch: nat,
) -> Outcome {
    let c1 = invite_setup(c, m);
    let ah = c1.a_leg_header;
    match username_of(to_of(m.raw)) {
        None => Outcome { call: c1, sends: seq![], release: true },
        Some(u) => {
            let c2 = CallView { callee: u, ..c1 };
            match registered_addr(dir, u) {
                None => Outcome {
                    call: c2,
                    sends: seq![
                        (m.source, stored_response("SIP/2.0 404 Not Found\r\n"@, ah, c1.a_leg_uuid)),
                    ],
                    release: true,
                },
                Some(addr) => {
                    let b_via = server_via("z9hG4bK"@, branch);
                    let b_cseq = "CSeq: "@ + decimal(cseq) + " INVITE"@;
                    let b_to = "To: <sip:"@ + u + "@"@ + ip_text(addr.ip) + ">"@;
                    Outcome {
                        call: CallView {
                            b_leg_addr: Some(addr),
                            b_leg_header: HeaderView {
                                via: b_via + "\r\n"@,
                                from: ah.from,
                                to: b_to + "\r\n"@,
                                cseq: b_cseq + "\r\n"@,
                            },
                            call_state: CallState::Routing,
                            ..c2
                        },
                        sends: seq![
                            (m.source, stored_response("SIP/2.0 100 Trying\r\n"@, ah, c1.a_leg_uuid)),
                            (
                                addr,
                                invite_to_b(
                                    u,
                                    addr,
                                    b_via,
                                    ah.from,
                                    b_to,
                                    c1.b_leg_uuid,
                                    b_cseq,
                                    onward_max_forwards(m.raw),
                                    or_empty(sdp_body_of(m.raw)),
                                ),
                            ),
                        ],
                        release: false,
                    }
                },
            }
        },
    }
}

fn invite_to_b_text(
    u: &str,
    addr: PeerAddr,
    b_via: &str,
    from: &str,
    b_to: &str,
    b_uuid: &str,
    b_cseq: &str,
    max_forwards: u32,
    sdp: &str,
) -> (r: String)
    ensures
        r@ == invite_to_b(u@, addr, b_via@, from@, b_to@, b_uuid@, b_cseq@, max_forwards as nat, sdp@),
{
    let target = addr_string(addr);
    let host = server_host_text();
    let mut m = String::from_str("INVITE sip:");
    push_str(&mut m, u);
    push_str(&mut m, "@");
    push_str(&mut m, target.as_str());
    push_str(&mut m, " SIP/2.0\r\n");
    push_str(&mut m, b_via);
    push_str(&mut m, "\r\n");
    push_str(&mut m, from);
    push_str(&mut m, "\r\n");
    push_str(&mut m, b_to);
    push_str(&mut m, "\r\n");
    push_str(&mut m, "Call-ID: ");
    push_str(&mut m, b_uuid);
    push_str(&mut m, "\r\n");
    push_str(&mut m, b_cseq);
    push_str(&mut m, "\r\n");
    push_str(&mut m, "Max-Forwards: ");
    push_decimal(&mut m, max_forwards as u128);
    push_str(&mut m, "\r\n");
    push_str(&mut m, "Contact: <sip:TinySIP@");
    push_str(&mut m, host.as_str());
    push_str(&mut m, ">\r\n");
    push_str(&mut m, "User-Agent: TinySIP-Rust\r\nContent-Type: application/sdp\r\nContent-Length: ");
    push_decimal(&mut m, sdp.as_bytes().len() as u128);
    push_str(&mut m, "\r\n\r\n");
    push_str(&mut m, sdp);
    m
}

fn with_line_end(s: &str) -> (r: String)
    ensures
        r@ == s@ + "\r\n"@,
{
    let mut t = String::from_str(s);
    push_str(&mut t, "\r\n");
    t
}

fn on_invite(
    call: &mut Call,
    m: &Inbound,
    h: &MsgHeaders,
    dir: &Vec<LocationEntry>,
    cseq: usize,
    branch: u128,
) -> (r: (Vec<Outbound>, bool))
    requires
        h.via@ == via_of(m.raw@),
        h.from@ == from_of(m.raw@),
        h.to@ == to_of(m.raw@),
        h.call_id@ == call_id_of(m.raw@),
        h.cseq@ == cseq_of(m.raw@),
        h.contact@ == contact_of(m.raw@),
    ensures
        outcome_is(final(call)@, r, invite_outcome(old(call)@, m@, dir@, cseq as nat, branch as nat)),
{
    let ghost c = call@;
    call.a_leg_addr = Some(m.source);
    call.a_leg_uuid = h.call_id.clone();
    call.b_leg_uuid = b_leg_id_text(h.call_id.as_str());
    call.a_leg_header = SipHeaderInfo {
        via: a_leg_via_text(h.via.as_str(), m.source),
        from: h.from.clone(),
        to: h.to.clone(),
        cseq: h.cseq.clone(),
    };
    let current = call.a_leg_contact.clone();
    call.a_leg_contact = contact_uri_text(h.contact.as_str(), current);
    if m.has_sdp {
        call.a_leg_media.remote_media = true;
        call.b_leg_media.local_media = true;
    }
    let mut out: Vec<Outbound> = Vec::new();
    assert(call@ == invite_setup(c, m@));
    let u = match extract_username_from_uri(h.to.as_str()) {
        Some(u) => u,
        None => {
            proof {
                assert(sends_view(out@) =~= seq![]);
            }
            return (out, true);
        },
    };
    call.callee = u.clone();
    match get_registered_addr(dir, u.as_str()) {
        None => {
            let t = stored_response_text(
                "SIP/2.0 404 Not Found\r\n",
                &call.a_leg_header,
                call.a_leg_uuid.as_str(),
            );
            out.push(Outbound { dest: m.source, text: t });
            proof {
                assert(sends_view(out@) =~= invite_outcome(c, m@, dir@, cseq as nat, branch as nat).sends);
            }
            (out, true)
        },
        Some(addr) => {
            let trying = stored_response_text(
                "SIP/2.0 100 Trying\r\n",
                &call.a_leg_header,
                call.a_leg_uuid.as_str(),
            );
            let b_via = server_via_text("z9hG4bK", branch);
            let mut b_cseq = String::from_str("CSeq: ");
            push_decimal(&mut b_cseq, cseq as u128);
            push_str(&mut b_cseq, " INVITE");
            let mut b_to = String::from_str("To: <sip:");
            push_str(&mut b_to, u.as_str());
            push_str(&mut b_to, "@");
            push_ip(&mut b_to, addr.ip);
            push_str(&mut b_to, ">");
            let mf = match get_max_forwards(m.raw.as_str()) {
                Some(v) => if v >= 1 {
                    v - 1
                } else {
                    0
                },
                None => 69,
            };
            let sdp = match get_sdp_body(m.raw.as_str()) {
                Some(b) => b,
                None => "",
            };
            proof {
                reveal_strlit("");
                assert(sdp@ == or_empty(sdp_body_of(m.raw@)));
            }
            let invite = invite_to_b_text(
                u.as_str(),
                addr,
                b_via.as_str(),
                call.a_leg_header.from.as_str(),
                b_to.as_str(),
                call.b_leg_uuid.as_str(),
                b_cseq.as_str(),
                mf,
                sdp,
            );
            call.b_leg_addr = Some(addr);
            call.b_leg_header = SipHeaderInfo {
                via: with_line_end(b_via.as_str()),
                from: call.a_leg_header.from.clone(),
                to: with_line_end(b_to.as_str()),
                cseq: with_line_end(b_cseq.as_str()),
            };
            call.call_state = CallState::Routing;
            out.push(Outbound { dest: m.source, text: trying });
            out.push(Outbound { dest: addr, text: invite });
            proof {
                assert(sends_view(out@) =~= invite_outcome(c, m@, dir@, cseq as nat, branch as nat).sends);
            }
            (out, false)
        },
    }
}

/// The sequence number of the B-leg's INVITE, as its stored CSeq line gives it, or 0.
pub open spec fn b_invite_number(c: CallView) -> nat {
    match cseq_number_of(c.b_leg_header.cseq) {
        Some(v) => v,
        None => 0,
    }
}

fn b_invite_number_of(call: &Call) -> (r: u32)
    ensures
        r as nat == b_invite_number(call@),
{
    match extract_cseq_number(call.b_leg_header.cseq.as_str()) {
        Some(v) => v,
        None => 0,
    }
}

/// The status code of a response token, read as a `u16`, or 0.
pub open spec fn code_of(token: Seq<char>) -> nat {
    match parse_unsigned(token, u16::MAX as nat) {
        Some(v) => v,
        None => 0,
    }
}

/// The media flags once the callee's SDP has been seen.
pub open spec fn callee_media(c: CallView, seen: bool) -> CallView {
    if seen {
        CallView {
            a_leg_media: MediaState { local_media: true, ..c.a_leg_media },
            b_leg_media: MediaState { remote_media: true, ..c.b_leg_media },
            ..c
        }
    } else {
        c
    }
}

/// A CANCEL from the caller while the call is routed or ringing: `200 OK` to the CANCEL
/// and `487` to the INVITE go to the caller, a CANCEL with the CSeq number of the INVITE
/// goes to the callee, and the call goes to `Disconnecting`.
pub open spec fn cancel_outcome(c: CallView, m: MsgView) -> Outcome {
    let a = c.a_leg_addr->0;
    let b = c.b_leg_addr->0;
    let bh = c.b_leg_header;
    Outcome {
        call: CallView { call_state: CallState::Disconnecting, ..c },
        sends: seq![
            (
                a,
                echo_response(
                    "SIP/2.0 200 OK\r\n"@,
                    via_of(m.raw),
                    from_of(m.raw),
                    to_of(m.raw),
                    call_id_of(m.raw),
                    cseq_of(m.raw),
                ),
            ),
            (a, stored_response("SIP/2.0 487 Request Terminated\r\n"@, c.a_leg_header, c.a_leg_uuid)),
            (
                b,
                dialog_request(
                    "CANCEL sip:"@ + c.callee + "@"@ + addr_text(b) + " SIP/2.0\r\n"@ + bh.via,
                    bh.from,
                    bh.to,
                    c.b_leg_uuid,
                    b_invite_number(c),
                    "CANCEL"@,
                ),
            ),
        ],
        release: false,
    }
}

/// A response of the callee passed on to the caller, the SDP with it noted.
pub open spec fn relay_outcome(c: CallView, m: MsgView, status: Seq<char>, state: CallState, seen: bool) -> Outcome {
    Outcome {
        call: CallView { call_state: state, ..callee_media(c, seen) },
        sends: seq![
            (
                c.a_leg_addr->0,
                forwarded_response(status, c.a_leg_header, c.a_leg_uuid, body_part(sdp_body_of(m.raw))),
            ),
        ],
        release: false,
    }
}

/// A failure response of the callee: the server ACKs it, passes its status line on to the
/// caller as it came, and releases the slot.
pub open spec fn failure_outcome(c: CallView, m: MsgView) -> Outcome {
    let b = c.b_leg_addr->0;
    let bh = c.b_leg_header;
    let n = b_invite_number(c);
    Outcome {
        call: c,
        sends: seq![
            (
                b,
                dialog_request(
                    "ACK sip:"@ + c.callee + "@"@ + addr_text(b) + " SIP/2.0\r\n"@ + server_via(
                        "z9hG4bKack"@,
                        n,
                    ) + "\r\n"@,
                    bh.from,
                    bh.to,
                    c.b_leg_uuid,
                    n,
                    "ACK"@,
                ),
            ),
            (
                c.a_leg_addr->0,
                stored_response(first_line(m.raw) + "\r\n"@, c.a_leg_header, c.a_leg_uuid),
            ),
        ],
        release: true,
    }
}

/// A message while the call is routed or ringing.
pub open spec fn early_outcome(c: CallView, m: MsgView, leg: i32) -> Outcome {
    if m.kind == REQUEST_METHOD {
        if m.token == "CANCEL"@ && leg == A_LEG {
            cancel_outcome(c, m)
        } else {
            unchanged(c)
        }
    } else if m.kind == STATUS_CODE && leg == B_LEG {
        let code = code_of(m.token);
        if code == 180 {
            relay_outcome(c, m, "SIP/2.0 180 Ringing\r\n"@, CallState::Ringing, m.has_sdp)
        } else if code == 183 {
            relay_outcome(
                c,
                m,
                "SIP/2.0 183 Session Progress\r\n"@,
                c.call_state,
                sdp_body_of(m.raw) is Some,
            )
        } else if 200 <= code <= 299 {
            relay_outcome(
                CallView { b_leg_contact: contact_uri(contact_of(m.raw), c.b_leg_contact), ..c },
                m,
                "SIP/2.0 200 OK\r\n"@,
                CallState::Answered,
                sdp_body_of(m.raw) is Some,
            )
        } else if 300 <= code <= 699 {
            failure_outcome(c, m)
        } else {
            unchanged(c)
        }
    } else {
        unchanged(c)
    }
}

/// No datagram, and no release.
fn nothing() -> (r: (Vec<Outbound>, bool))
    ensures
        sends_view(r.0@) == Seq::<(PeerAddr, Seq<char>)>::empty(),
        !r.1,
{
    let out: Vec<Outbound> = Vec::new();
    proof {
        assert(sends_view(out@) =~= Seq::<(PeerAddr, Seq<char>)>::empty());
    }
    (out, false)
}

fn cancel_step(call: &mut Call, h: &MsgHeaders) -> (r: (Vec<Outbound>, bool))
    requires
        old(call).a_leg_addr is Some,
        old(call).b_leg_addr is Some,
    ensures
        forall|m: MsgView|
            h.via@ == via_of(m.raw) && h.from@ == from_of(m.raw) && h.to@ == to_of(m.raw)
                && h.call_id@ == call_id_of(m.raw) && h.cseq@ == cseq_of(m.raw) ==> outcome_is(
                final(call)@,
                r,
                #[trigger] cancel_outcome(old(call)@, m),
            ),
{
    let ghost c = call@;
    let a = call.a_leg_addr.unwrap();
    let b = call.b_leg_addr.unwrap();
    let ok = echo_response_text(
        "SIP/2.0 200 OK\r\n",
        h.via.as_str(),
        h.from.as_str(),
        h.to.as_str(),
        h.call_id.as_str(),
        h.cseq.as_str(),
    );
    let terminated = stored_response_text(
        "SIP/2.0 487 Request Terminated\r\n",
        &call.a_leg_header,
        call.a_leg_uuid.as_str(),
    );
    let target = addr_string(b);
    let mut head = String::from_str("CANCEL sip:");
    push_str(&mut head, call.callee.as_str());
    push_str(&mut head, "@");
    push_str(&mut head, target.as_str());
    push_str(&mut head, " SIP/2.0\r\n");
    push_str(&mut head, call.b_leg_header.via.as_str());
    let n = b_invite_number_of(call);
    let cancel = dialog_request_text(
        head.as_str(),
        call.b_leg_header.from.as_str(),
        call.b_leg_header.to.as_str(),
        call.b_leg_uuid.as_str(),
        n as u128,
        "CANCEL",
    );
    call.call_state = CallState::Disconnecting;
    let mut out: Vec<Outbound> = Vec::new();
    out.push(Outbound { dest: a, text: ok });
    out.push(Outbound { dest: a, text: terminated });
    out.push(Outbound { dest: b, text: cancel });
    proof {
        assert forall|m: MsgView|
            h.via@ == via_of(m.raw) && h.from@ == from_of(m.raw) && h.to@ == to_of(m.raw)
                && h.call_id@ == call_id_of(m.raw) && h.cseq@ == cseq_of(m.raw) implies outcome_is(
                call@,
                (out, false),
                #[trigger] cancel_outcome(c, m),
            ) by {
            assert(sends_view(out@) =~= cancel_outcome(c, m).sends);
        }
    }
    (out, false)
}

fn relay_step(
    call: &mut Call,
    m: &Inbound,
    status: &str,
    state: CallState,
    seen: bool,
) -> (r: (Vec<Outbound>, bool))
    requires
        old(call).a_leg_addr is Some,
    ensures
        outcome_is(final(call)@, r, relay_outcome(old(call)@, m@, status@, state, seen)),
{
    let ghost c = call@;
    let body = body_part_text(get_sdp_body(m.raw.as_str()));
    let text = forwarded_response_text(status, &call.a_leg_header, call.a_leg_uuid.as_str(), body.as_str());
    if seen {
        call.a_leg_media.local_media = true;
        call.b_leg_media.remote_media = true;
    }
    call.call_state = state;
    let mut out: Vec<Outbound> = Vec::new();
    out.push(Outbound { dest: call.a_leg_addr.unwrap(), text });
    proof {
        assert(sends_view(out@) =~= relay_outcome(c, m@, status@, state, seen).sends);
    }
    (out, false)
}

fn failure_step(call: &mut Call, m: &Inbound) -> (r: (Vec<Outbound>, bool))
    requires
        old(call).a_leg_addr is Some,
        old(call).b_leg_addr is Some,
    ensures
        outcome_is(final(call)@, r, failure_outcome(old(call)@, m@)),
{
    let ghost c = call@;
    let a = call.a_leg_addr.unwrap();
    let b = call.b_leg_addr.unwrap();
    let n = b_invite_number_of(call);
    let target = addr_string(b);
    let via = server_via_text("z9hG4bKack", n as u128);
    let mut head = String::from_str("ACK sip:");
    push_str(&mut head, call.callee.as_str());
    push_str(&mut head, "@");
    push_str(&mut head, target.as_str());
    push_str(&mut head, " SIP/2.0\r\n");
    push_str(&mut head, via.as_str());
    push_str(&mut head, "\r\n");
    let ack = dialog_request_text(
        head.as_str(),
        call.b_leg_header.from.as_str(),
        call.b_leg_header.to.as_str(),
        call.b_leg_uuid.as_str(),
        n as u128,
        "ACK",
    );
    let mut status = first_line_of(m.raw.as_str());
    push_str(&mut status, "\r\n");
    let failure = stored_response_text(status.as_str(), &call.a_leg_header, call.a_leg_uuid.as_str());
    let mut out: Vec<Outbound> = Vec::new();
    out.push(Outbound { dest: b, text: ack });
    out.push(Outbound { dest: a, text: failure });
    proof {
        assert(sends_view(out@) =~= failure_outcome(c, m@).sends);
    }
    (out, true)
}

fn early_step(call: &mut Call, m: &Inbound, h: &MsgHeaders, leg: i32) -> (r: (Vec<Outbound>, bool))
    requires
        old(call).call_state == CallState::Routing || old(call).call_state == CallState::Ringing,
        has_step_addrs(old(call)@, m@, leg),
        h.via@ == via_of(m.raw@),
        h.from@ == from_of(m.raw@),
        h.to@ == to_of(m.raw@),
        h.call_id@ == call_id_of(m.raw@),
        h.cseq@ == cseq_of(m.raw@),
        h.contact@ == contact_of(m.raw@),
    ensures
        outcome_is(final(call)@, r, early_outcome(old(call)@, m@, leg)),
{
    let ghost c = call@;
    if m.message_type == REQUEST_METHOD {
        if same_text(m.method_or_code.as_str(), "CANCEL") && leg == A_LEG {
            let r = cancel_step(call, h);
            proof {
                assert(outcome_is(call@, r, cancel_outcome(c, m@)));
            }
            r
        } else {
            nothing()
        }
    } else if m.message_type == STATUS_CODE && leg == B_LEG {
        let t = chars_of(m.method_or_code.as_str());
        proof {
            assert(t@.subrange(0, t@.len() as int) =~= t@);
        }
        let code = match parse_decimal(&t, 0, t.len(), u16::MAX as u64) {
            Some(v) => v,
            None => 0,
        };
        if code == 180 {
            relay_step(call, m, "SIP/2.0 180 Ringing\r\n", CallState::Ringing, m.has_sdp)
        } else if code == 183 {
            let state = call.call_state;
            let seen = get_sdp_body(m.raw.as_str()).is_some();
            relay_step(call, m, "SIP/2.0 183 Session Progress\r\n", state, seen)
        } else if 200 <= code && code <= 299 {
            let current = call.b_leg_contact.clone();
            call.b_leg_contact = contact_uri_text(h.contact.as_str(), current);
            let seen = get_sdp_body(m.raw.as_str()).is_some();
            relay_step(call, m, "SIP/2.0 200 OK\r\n", CallState::Answered, seen)
        } else if 300 <= code && code <= 699 {
            failure_step(call, m)
        } else {
            nothing()
        }
    } else {
        nothing()
    }
}

/// The caller's ACK to the answer: an ACK with the CSeq number of the INVITE goes to the
/// callee's Contact, and the call is `Connected`.
pub open spec fn ack_outcome(c: CallView) -> Outcome {
    let bh = c.b_leg_header;
    let n = b_invite_number(c);
    Outcome {
        call: CallView { call_state: CallState::Connected, ..c },
        sends: seq![
            (
                c.b_leg_addr->0,
                dialog_request(
                    "ACK "@ + c.b_leg_contact + " SIP/2.0\r\n"@ + server_via("z9hG4bKackB"@, n)
                        + "\r\n"@,
                    bh.from,
                    bh.to,
                    c.b_leg_uuid,
                    n,
                    "ACK"@,
                ),
            ),
        ],
        release: false,
    }
}

/// A BYE from either leg: `200 OK` to its sender, a new BYE to the other leg, and the call
/// goes to `Disconnecting`. Toward the callee the BYE uses the B-leg headers; toward the
/// caller it swaps the stored A-leg From and To lines.
pub open spec fn bye_outcome(c: CallView, m: MsgView, leg: i32, cseq: nat, branch: nat) -> Outcome {
    let ok = (
        m.source,
        echo_response(
            "SIP/2.0 200 OK\r\n"@,
            via_of(m.raw),
            from_of(m.raw),
            to_of(m.raw),
            call_id_of(m.raw),
            cseq_of(m.raw),
        ),
    );
    let other = if leg == A_LEG {
        (
            c.b_leg_addr->0,
            dialog_request(
                "BYE "@ + c.b_leg_contact + " SIP/2.0\r\n"@ + server_via("z9hG4bKbyeB"@, branch)
                    + "\r\n"@,
                c.b_leg_header.from,
                c.b_leg_header.to,
                c.b_leg_uuid,
                cseq,
                "BYE"@,
            ),
        )
    } else {
        (
            c.a_leg_addr->0,
            dialog_request(
                "BYE "@ + c.a_leg_contact + " SIP/2.0\r\n"@ + server_via("z9hG4bKbyeA"@, branch)
                    + "\r\n"@,
                replace_all(c.a_leg_header.from, "From:"@, "To:"@),
                replace_all(c.a_leg_header.to, "To:"@, "From:"@),
                c.a_leg_uuid,
                cseq,
                "BYE"@,
            ),
        )
    };
    Outcome {
        call: CallView { call_state: CallState::Disconnecting, ..c },
        sends: seq![ok, other],
        release: false,
    }
}

pub open spec fn is_request(m: MsgView, method: Seq<char>) -> bool {
    m.kind == REQUEST_METHOD && m.token == method
}

pub open spec fn answered_outcome(c: CallView, m: MsgView, leg: i32, cseq: nat, branch: nat) -> Outcome {
    if is_request(m, "ACK"@) && leg == A_LEG {
        ack_outcome(c)
    } else if is_request(m, "BYE"@) {
        bye_outcome(c, m, leg, cseq, branch)
    } else {
        unchanged(c)
    }
}

pub open spec fn connected_outcome(c: CallView, m: MsgView, leg: i32, cseq: nat, branch: nat) -> Outcome {
    if is_request(m, "BYE"@) {
        bye_outcome(c, m, leg, cseq, branch)
    } else {
        unchanged(c)
    }
}

/// While disconnecting, a `200` whose CSeq line names BYE or CANCEL releases the slot.
pub open spec fn disconnecting_outcome(c: CallView, m: MsgView) -> Outcome {
    if m.kind == STATUS_CODE && m.token == "200"@ {
        match header_line(m.raw, "CSeq:"@, "CSeq: "@) {
            Some(cs) => if contains(cs, "BYE"@) || contains(cs, "CANCEL"@) {
                Outcome { call: c, sends: seq![], release: true }
            } else {
                unchanged(c)
            },
            None => unchanged(c),
        }
    } else {
        unchanged(c)
    }
}

/// The slot with the To line of the message stored for the leg it came from, where it has
/// one.
pub open spec fn refresh_to(c: CallView, m: MsgView, leg: i32) -> CallView {
    let to = to_of(m.raw);
    if leg == B_LEG && to.len() > 0 {
        CallView { b_leg_header: HeaderView { to, ..c.b_leg_header }, ..c }
    } else if leg == A_LEG && to.len() > 0 {
        CallView { a_leg_header: HeaderView { to, ..c.a_leg_header }, ..c }
    } else {
        c
    }
}

/// One step of the dialog state machine on a slot, for a message of leg `leg`, with the
/// callee directory `dir`, and `cseq` and `branch` as the CSeq number and branch token of
/// a request the server originates.
#[verifier::opaque]
pub open spec fn step(
    c: CallView,
    m: MsgView,
    leg: i32,
    dir: Seq<LocationEntry>,
    cseq: nat,
    branch: nat,
) -> Outcome {
    let c0 = refresh_to(c, m, leg);
    match c0.call_state {
        CallState::Idle => if is_request(m, "INVITE"@) && leg == A_LEG {
            invite_outcome(c0, m, dir, cseq, branch)
        } else {
            unchanged(c0)
        },
        CallState::Routing | CallState::Ringing => early_outcome(c0, m, leg),
        CallState::Answered => answered_outcome(c0, m, leg, cseq, branch),
        CallState::Connected => connected_outcome(c0, m, leg, cseq, branch),
        CallState::Disconnecting => disconnecting_outcome(c0, m),
    }
}

/// Whether the step originates a request that takes a fresh CSeq number and branch.
pub open spec fn needs_fresh(c: CallView, m: MsgView, leg: i32) -> bool {
    match c.call_state {
        CallState::Idle => is_request(m, "INVITE"@) && leg == A_LEG,
        CallState::Answered | CallState::Connected => is_request(m, "BYE"@),
        _ => false,
    }
}

fn ack_step(call: &mut Call) -> (r: (Vec<Outbound>, bool))
    requires
        old(call).b_leg_addr is Some,
    ensures
        outcome_is(final(call)@, r, ack_outcome(old(call)@)),
{
    let ghost c = call@;
    let n = b_invite_number_of(call);
    let via = server_via_text("z9hG4bKackB", n as u128);
    let mut head = String::from_str("ACK ");
    push_str(&mut head, call.b_leg_contact.as_str());
    push_str(&mut head, " SIP/2.0\r\n");
    push_str(&mut head, via.as_str());
    push_str(&mut head, "\r\n");
    let ack = dialog_request_text(
        head.as_str(),
        call.b_leg_header.from.as_str(),
        call.b_leg_header.to.as_str(),
        call.b_leg_uuid.as_str(),
        n as u128,
        "ACK",
    );
    call.call_state = CallState::Connected;
    let mut out: Vec<Outbound> = Vec::new();
    out.push(Outbound { dest: call.b_leg_addr.unwrap(), text: ack });
    proof {
        assert(sends_view(out@) =~= ack_outcome(c).sends);
    }
    (out, false)
}

fn bye_step(
    call: &mut Call,
    m: &Inbound,
    h: &MsgHeaders,
    leg: i32,
    cseq: usize,
    branch: u128,
) -> (r: (Vec<Outbound>, bool))
    requires
        other_leg_known(old(call)@, leg),
        h.via@ == via_of(m.raw@),
        h.from@ == from_of(m.raw@),
        h.to@ == to_of(m.raw@),
        h.call_id@ == call_id_of(m.raw@),
        h.cseq@ == cseq_of(m.raw@),
    ensures
        outcome_is(final(call)@, r, bye_outcome(old(call)@, m@, leg, cseq as nat, branch as nat)),
{
    let ghost c = call@;
    let ok = echo_response_text(
        "SIP/2.0 200 OK\r\n",
        h.via.as_str(),
        h.from.as_str(),
        h.to.as_str(),
        h.call_id.as_str(),
        h.cseq.as_str(),
    );
    let other = if leg == A_LEG {
        let via = server_via_text("z9hG4bKbyeB", branch);
        let mut head = String::from_str("BYE ");
        push_str(&mut head, call.b_leg_contact.as_str());
        push_str(&mut head, " SIP/2.0\r\n");
        push_str(&mut head, via.as_str());
        push_str(&mut head, "\r\n");
        Outbound {
            dest: call.b_leg_addr.unwrap(),
            text: dialog_request_text(
                head.as_str(),
                call.b_leg_header.from.as_str(),
                call.b_leg_header.to.as_str(),
                call.b_leg_uuid.as_str(),
                cseq as u128,
                "BYE",
            ),
        }
    } else {
        let via = server_via_text("z9hG4bKbyeA", branch);
        let mut head = String::from_str("BYE ");
        push_str(&mut head, call.a_leg_contact.as_str());
        push_str(&mut head, " SIP/2.0\r\n");
        push_str(&mut head, via.as_str());
        push_str(&mut head, "\r\n");
        proof {
            reveal_strlit("From:");
            reveal_strlit("To:");
        }
        let from_line = replace_text(call.a_leg_header.from.as_str(), "From:", "To:");
        let to_line = replace_text(call.a_leg_header.to.as_str(), "To:", "From:");
        Outbound {
            dest: call.a_leg_addr.unwrap(),
            text: dialog_request_text(
                head.as_str(),
                from_line.as_str(),
                to_line.as_str(),
                call.a_leg_uuid.as_str(),
                cseq as u128,
                "BYE",
            ),
        }
    };
    call.call_state = CallState::Disconnecting;
    let mut out: Vec<Outbound> = Vec::new();
    out.push(Outbound { dest: m.source, text: ok });
    out.push(other);
    proof {
        assert(sends_view(out@) =~= bye_outcome(c, m@, leg, cseq as nat, branch as nat).sends);
    }
    (out, false)
}

fn disconnecting_step(m: &Inbound) -> (r: (Vec<Outbound>, bool))
    ensures
        forall|c: CallView| outcome_is(c, r, #[trigger] disconnecting_outcome(c, m@)),
{
    let mut out: Vec<Outbound> = Vec::new();
    proof {
        assert(sends_view(out@) =~= Seq::<(PeerAddr, Seq<char>)>::empty());
    }
    if m.message_type == STATUS_CODE && same_text(m.method_or_code.as_str(), "200") {
        match get_cseq_header(m.raw.as_str()) {
            Some(cs) => {
                if contains_text(cs.as_str(), "BYE") || contains_text(cs.as_str(), "CANCEL") {
                    return (out, true);
                }
            },
            None => {},
        }
    }
    (out, false)
}

fn refresh_to_step(call: &mut Call, m: &Inbound, h: &MsgHeaders, leg: i32)
    requires
        h.to@ == to_of(m.raw@),
    ensures
        final(call)@ == refresh_to(old(call)@, m@, leg),
{
    if leg == B_LEG && h.to.as_str().unicode_len() > 0 {
        call.b_leg_header.to = h.to.clone();
    } else if leg == A_LEG && h.to.as_str().unicode_len() > 0 {
        call.a_leg_header.to = h.to.clone();
    }
}

/// The address of the leg that a BYE from leg `leg` is passed on to is known.
pub open spec fn other_leg_known(c: CallView, leg: i32) -> bool {
    if leg == A_LEG {
        c.b_leg_addr is Some
    } else {
        c.a_leg_addr is Some
    }
}

/// The stored leg addresses that a step on `c` for `m` sends to are known.
pub open spec fn has_step_addrs(c: CallView, m: MsgView, leg: i32) -> bool {
    let a = c.a_leg_addr is Some;
    let b = c.b_leg_addr is Some;
    match c.call_state {
        CallState::Routing | CallState::Ringing => if m.kind == REQUEST_METHOD {
            m.token == "CANCEL"@ && leg == A_LEG ==> a && b
        } else if m.kind == STATUS_CODE && leg == B_LEG {
            let code = code_of(m.token);
            &&& (code == 180 || code == 183 || (200 <= code <= 299)) ==> a
            &&& (300 <= code <= 699) ==> a && b
        } else {
            true
        },
        CallState::Answered => {
            &&& is_request(m, "ACK"@) && leg == A_LEG ==> b
            &&& is_request(m, "BYE"@) ==> other_leg_known(c, leg)
        },
        CallState::Connected => is_request(m, "BYE"@) ==> other_leg_known(c, leg),
        _ => true,
    }
}

/// A ready slot has every address a step may send to.
pub proof fn ready_has_step_addrs(c: CallView, m: MsgView, leg: i32)
    requires
        call_ready(c),
    ensures
        has_step_addrs(c, m, leg),
{
}

/// A slot past `Idle` knows where both legs are.
pub open spec fn call_ready(c: CallView) -> bool {
    c.call_state != CallState::Idle ==> c.a_leg_addr is Some && c.b_leg_addr is Some
}

/// Runs one step of the dialog state machine on `call`, for message `m` of leg
/// `leg_type`. `cseq` and `branch` are the CSeq number and branch token of a request that
/// the step originates (an INVITE to the callee, or a BYE); other steps do not read them.
/// Returns the datagrams to send, in order, and whether the slot is to be released.
pub fn handle_state_machine(
    call: &mut Call,
    m: &Inbound,
    leg_type: i32,
    dir: &Vec<LocationEntry>,
    cseq: usize,
    branch: u128,
) -> (r: (Vec<Outbound>, bool))
    requires
        has_step_addrs(old(call)@, m@, leg_type),
    ensures
        outcome_is(final(call)@, r, step(old(call)@, m@, leg_type, dir@, cseq as nat, branch as nat)),
{
    reveal(step);
    let h = read_headers(m.raw.as_str());
    refresh_to_step(call, m, &h, leg_type);
    match call.call_state {
        CallState::Idle => {
            if m.message_type == REQUEST_METHOD && same_text(m.method_or_code.as_str(), "INVITE")
                && leg_type == A_LEG {
                on_invite(call, m, &h, dir, cseq, branch)
            } else {
                nothing()
            }
        },
        CallState::Routing | CallState::Ringing => early_step(call, m, &h, leg_type),
        CallState::Answered => {
            let request = m.message_type == REQUEST_METHOD;
            if request && same_text(m.method_or_code.as_str(), "ACK") && leg_type == A_LEG {
                ack_step(call)
            } else if request && same_text(m.method_or_code.as_str(), "BYE") {
                bye_step(call, m, &h, leg_type, cseq, branch)
            } else {
                nothing()
            }
        },
        CallState::Connected => {
            if m.message_type == REQUEST_METHOD && same_text(m.method_or_code.as_str(), "BYE") {
                bye_step(call, m, &h, leg_type, cseq, branch)
            } else {
                nothing()
            }
        },
        CallState::Disconnecting => {
            let ghost c = call@;
            let r = disconnecting_step(m);
            assert(outcome_is(c, r, disconnecting_outcome(c, m@)));
            r
        },
    }
}

/// The frame that every outcome of a step keeps, from slot `c` to `o`.
pub open spec fn keeps_frame(c: CallView, o: Outcome) -> bool {
    &&& o.call.index == c.index
    &&& o.call.is_active == c.is_active
    &&& call_ready(o.call)
    &&& o.release || o.call.call_state != CallState::Idle
}

proof fn lemma_invite_frame(c: CallView, m: MsgView, dir: Seq<LocationEntry>, cseq: nat, branch: nat)
    requires
        c.call_state == CallState::Idle,
    ensures
        keeps_frame(c, invite_outcome(c, m, dir, cseq, branch)),
{
}

proof fn lemma_early_frame(c: CallView, m: MsgView, leg: i32)
    requires
        c.call_state == CallState::Routing || c.call_state == CallState::Ringing,
        call_ready(c),
    ensures
        keeps_frame(c, early_outcome(c, m, leg)),
{
}

proof fn lemma_late_frame(c: CallView, m: MsgView, leg: i32, cseq: nat, branch: nat)
    requires
        c.call_state != CallState::Idle,
        call_ready(c),
    ensures
        keeps_frame(c, bye_outcome(c, m, leg, cseq, branch)),
        keeps_frame(c, ack_outcome(c)),
        keeps_frame(c, disconnecting_outcome(c, m)),
        keeps_frame(c, unchanged(c)),
{
}

/// A step keeps a slot's index and occupancy, keeps it ready, and leaves a slot that was
/// past `Idle`, or that an INVITE from the A-leg set up, either past `Idle` or released.
pub proof fn lemma_step_frame(
    c: CallView,
    m: MsgView,
    leg: i32,
    dir: Seq<LocationEntry>,
    cseq: nat,
    branch: nat,
)
    requires
        call_ready(c),
    ensures
        ({
            let o = step(c, m, leg, dir, cseq, branch);
            &&& o.call.index == c.index
            &&& o.call.is_active == c.is_active
            &&& call_ready(o.call)
            &&& (c.call_state != CallState::Idle || (is_request(m, "INVITE"@) && leg == A_LEG))
                ==> (o.release || o.call.call_state != CallState::Idle)
        }),
{
    reveal(step);
    let c0 = refresh_to(c, m, leg);
    assert(c0.index == c.index && c0.is_active == c.is_active && c0.call_state == c.call_state);
    assert(call_ready(c0));
    match c0.call_state {
        CallState::Idle => {
            if is_request(m, "INVITE"@) && leg == A_LEG {
                lemma_invite_frame(c0, m, dir, cseq, branch);
            }
        },
        CallState::Routing | CallState::Ringing => {
            lemma_early_frame(c0, m, leg);
        },
        _ => {
            lemma_late_frame(c0, m, leg, cseq, branch);
        },
    }
}

/// The slot of outcome `o` holds the Call-IDs of `c`.
pub open spec fn keeps_ids(c: CallView, o: Outcome) -> bool {
    o.call.a_leg_uuid == c.a_leg_uuid && o.call.b_leg_uuid == c.b_leg_uuid
}

proof fn lemma_invite_ids(c: CallView, m: MsgView, dir: Seq<LocationEntry>, cseq: nat, branch: nat)
    ensures
        ({
            let o = invite_outcome(c, m, dir, cseq, branch);
            o.release || (o.call.a_leg_uuid == call_id_of(m.raw) && o.call.b_leg_uuid == b_leg_id(
                call_id_of(m.raw),
            ))
        }),
{
}

proof fn lemma_early_ids(c: CallView, m: MsgView, leg: i32)
    ensures
        keeps_ids(c, early_outcome(c, m, leg)),
{
}

proof fn lemma_late_ids(c: CallView, m: MsgView, leg: i32, cseq: nat, branch: nat)
    ensures
        keeps_ids(c, answered_outcome(c, m, leg, cseq, branch)),
        keeps_ids(c, connected_outcome(c, m, leg, cseq, branch)),
        keeps_ids(c, disconnecting_outcome(c, m)),
{
}

/// A step keeps the Call-IDs of a slot past `Idle`; an INVITE of the A-leg on an idle slot
/// gives it the message's Call-ID and the B-leg Call-ID made from it, unless it releases
/// the slot.
pub proof fn lemma_step_ids(
    c: CallView,
    m: MsgView,
    leg: i32,
    dir: Seq<LocationEntry>,
    cseq: nat,
    branch: nat,
)
    ensures
        ({
            let o = step(c, m, leg, dir, cseq, branch);
            &&& c.call_state != CallState::Idle ==> o.call.a_leg_uuid == c.a_leg_uuid
                && o.call.b_leg_uuid == c.b_leg_uuid
            &&& c.call_state == CallState::Idle && is_request(m, "INVITE"@) && leg == A_LEG
                ==> o.release || (o.call.a_leg_uuid == call_id_of(m.raw) && o.call.b_leg_uuid
                == b_leg_id(call_id_of(m.raw)))
        }),
{
    reveal(step);
    let c0 = refresh_to(c, m, leg);
    assert(c0.a_leg_uuid == c.a_leg_uuid && c0.b_leg_uuid == c.b_leg_uuid);
    assert(c0.call_state == c.call_state);
    match c0.call_state {
        CallState::Idle => {
            if is_request(m, "INVITE"@) && leg == A_LEG {
                lemma_invite_ids(c0, m, dir, cseq, branch);
            }
        },
        CallState::Routing | CallState::Ringing => {
            lemma_early_ids(c0, m, leg);
        },
        _ => {
            lemma_late_ids(c0, m, leg, cseq, branch);
        },
    }
}

} // verus!
