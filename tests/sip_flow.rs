use sip_server_rust::compose::Outbound;
use sip_server_rust::parsing::{
    extract_cseq_number, extract_via_host_port, extract_via_received_rport, get_header_value,
    get_max_forwards, parse_first_line,
};
use sip_server_rust::sip_defs::{
    default_location_entries, get_registered_addr, update_location_entry_addr, CallMap,
    next_cseq, CallState, LocationEntry, PeerAddr, BUFFER_SIZE, MAX_CALLS, MAX_UUID_LENGTH, REQUEST_METHOD,
    STATUS_CODE,
};
use sip_server_rust::rewrite::b_leg_id_text;
use sip_server_rust::worker::{accepts_datagram, next_worker, process_sip_message};

fn local(port: u16) -> PeerAddr {
    PeerAddr { ip: [127, 0, 0, 1], port }
}

fn sample_invite() -> String {
    "INVITE sip:1002@server SIP/2.0\r\n\
Via: SIP/2.0/UDP 192.168.1.10:5060;branch=z9hG4bK776asdhds\r\n\
Max-Forwards: 70\r\n\
From: \"Alice\" <sip:1001@server>;tag=1928301774\r\n\
To: \"Bob\" <sip:1002@server>\r\n\
Contact: <sip:1001@192.168.1.10:5060>\r\n\
Call-ID: a84b4c76e66710@pc33.atlanta.com\r\n\
CSeq: 314159 INVITE\r\n\
Content-Length: 0\r\n\r\n"
        .to_string()
}

fn response(status: &str, call_id: &str, cseq: &str) -> String {
    format!(
        "SIP/2.0 {}\r\n\
Via: SIP/2.0/UDP 192.168.1.20:5060;branch=z9hG4bK776asdhds\r\n\
From: \"Bob\" <sip:1002@server>;tag=asdf\r\n\
To: \"Alice\" <sip:1001@server>;tag=1928301774\r\n\
Contact: <sip:1002@192.168.1.20:5060>\r\n\
Call-ID: {}\r\n\
CSeq: {}\r\n\
Content-Length: 0\r\n\r\n",
        status, call_id, cseq
    )
}

struct Server {
    map: CallMap,
    entries: Vec<LocationEntry>,
    counter: usize,
}

impl Server {
    fn new() -> Server {
        Server { map: CallMap::new(), entries: default_location_entries(), counter: 1 }
    }

    fn feed(&mut self, text: &str, from: PeerAddr) -> Vec<Outbound> {
        process_sip_message(&mut self.map, &mut self.entries, text, from, &mut self.counter)
    }

    fn active(&self) -> usize {
        self.map.calls.iter().filter(|c| c.is_active).count()
    }

    fn idle_iff_inactive(&self) -> bool {
        self.map.calls.iter().all(|c| (c.call_state == CallState::Idle) == !c.is_active)
    }
}

fn register_1002(server: &mut Server) -> Vec<Outbound> {
    let register = "REGISTER sip:server SIP/2.0\r\n\
Via: SIP/2.0/UDP 127.0.0.1:7000;branch=z9hG4bKreg\r\n\
From: <sip:1002@server>;tag=r1\r\n\
To: <sip:1002@server>\r\n\
Call-ID: reg-1002\r\n\
CSeq: 1 REGISTER\r\n\
Contact: <sip:1002@127.0.0.1:7000>\r\n\
Content-Length: 0\r\n\r\n";
    server.feed(register, local(7000))
}

#[test]
fn simulate_basic_call_flow() {
    let mut server = Server::new();
    let inviter = local(6000);
    let callee_addr = local(7000);
    if let Some(entry) = server.entries.iter_mut().find(|e| e.username == "1002") {
        entry.current_addr = Some(callee_addr);
        entry.registered = true;
    }

    let invite = sample_invite();
    server.feed(&invite, inviter);
    let b_call_id = {
        let call = &server.map.calls[0];
        assert!(call.is_active, "call should be active after INVITE");
        call.b_leg_uuid.clone()
    };

    let ringing = format!(
        "SIP/2.0 180 Ringing\r\n\
Via: SIP/2.0/UDP 192.168.1.20:5060;branch=z9hG4bK776asdhds\r\n\
From: \"Bob\" <sip:1002@server>;tag=asdf\r\n\
To: \"Alice\" <sip:1001@server>;tag=1928301774\r\n\
Call-ID: {}\r\n\
CSeq: 314159 INVITE\r\n\
Contact: <sip:1002@192.168.1.20:5060>\r\n\
Content-Length: 0\r\n\r\n",
        b_call_id
    );
    server.feed(&ringing, callee_addr);

    let ok = format!(
        "SIP/2.0 200 OK\r\n\
Via: SIP/2.0/UDP 192.168.1.20:5060;branch=z9hG4bK776asdhds\r\n\
From: \"Bob\" <sip:1002@server>;tag=asdf\r\n\
To: \"Alice\" <sip:1001@server>;tag=1928301774\r\n\
Contact: <sip:1002@192.168.1.20:5060>\r\n\
Call-ID: {}\r\n\
CSeq: 314159 INVITE\r\n\
Content-Length: 0\r\n\r\n",
        b_call_id
    );
    server.feed(&ok, callee_addr);

    let ack = "ACK sip:1002@server SIP/2.0\r\nCall-ID: a84b4c76e66710@pc33.atlanta.com\r\nCSeq: 314159 ACK\r\n\r\n";
    server.feed(ack, inviter);

    let bye = "BYE sip:1002@server SIP/2.0\r\nVia: SIP/2.0/UDP 192.168.1.10:5060;branch=z9hG4bKbyeA\r\nFrom: \"Alice\" <sip:1001@server>;tag=1928301774\r\nTo: \"Bob\" <sip:1002@server>;tag=asdf\r\nCall-ID: a84b4c76e66710@pc33.atlanta.com\r\nCSeq: 314160 BYE\r\nContent-Length: 0\r\n\r\n";
    server.feed(bye, inviter);

    let bye_ok = format!(
        "SIP/2.0 200 OK\r\n\
Via: SIP/2.0/UDP 192.168.1.20:5060;branch=z9hG4bKbyeB\r\n\
From: \"Bob\" <sip:1002@server>;tag=asdf\r\n\
To: \"Alice\" <sip:1001@server>;tag=1928301774\r\n\
Call-ID: {}\r\n\
CSeq: 314160 BYE\r\n\
Content-Length: 0\r\n\r\n",
        b_call_id
    );
    server.feed(&bye_ok, callee_addr);

    assert_eq!(server.map.size, 0);
    let call = &server.map.calls[0];
    assert!(call.a_leg_uuid.is_empty());
    assert_eq!(call.call_state, CallState::Idle);
}

#[test]
fn happy_path_call_walks_every_state() {
    let mut server = Server::new();
    let a = local(6000);
    let b = local(7000);

    let reg = register_1002(&mut server);
    assert_eq!(reg.len(), 1);
    assert_eq!(reg[0].dest, b);
    assert!(reg[0].text.starts_with("SIP/2.0 200 OK\r\n"));
    assert!(reg[0].text.contains("Contact: <sip:1002@127.0.0.1:7000>;expires=7200\r\n"));
    assert_eq!(get_registered_addr(&server.entries, "1002"), Some(b));
    assert_eq!(server.entries[1].ip_str, "127.0.0.1");
    assert_eq!(server.entries[1].port, 7000);

    let sent = server.feed(&sample_invite(), a);
    assert_eq!(sent.len(), 2);
    assert_eq!(sent[0].dest, a);
    assert!(sent[0].text.starts_with(
        "SIP/2.0 100 Trying\r\nVia: SIP/2.0/UDP 192.168.1.10:5060;branch=z9hG4bK776asdhds;received=127.0.0.1\r\nFrom: \"Alice\""
    ));
    assert_eq!(sent[1].dest, b);
    assert!(sent[1].text.starts_with("INVITE sip:1002@127.0.0.1:7000 SIP/2.0\r\nVia: SIP/2.0/UDP 192.168.32.131:5060;branch=z9hG4bK"));
    assert!(sent[1].text.contains("\r\nTo: <sip:1002@127.0.0.1>\r\nCall-ID: b-leg-a84b4c76e66710@pc33.atlanta.com\r\nCSeq: 1 INVITE\r\nMax-Forwards: 69\r\nContact: <sip:TinySIP@192.168.32.131:5060>\r\n"));
    assert!(sent[1].text.ends_with("Content-Length: 0\r\n\r\n"));

    let call = &server.map.calls[0];
    assert!(call.is_active);
    assert_eq!(call.call_state, CallState::Routing);
    assert_eq!(call.b_leg_uuid, "b-leg-a84b4c76e66710@pc33.atlanta.com");
    assert_eq!(call.a_leg_contact, "sip:1001@192.168.1.10:5060");
    assert_eq!(call.callee, "1002");
    let b_id = call.b_leg_uuid.clone();

    let sent = server.feed(&response("180 Ringing", &b_id, "1 INVITE"), b);
    assert_eq!(sent.len(), 1);
    assert_eq!(sent[0].dest, a);
    assert!(sent[0].text.starts_with("SIP/2.0 180 Ringing\r\n"));
    assert!(sent[0].text.contains("Call-ID: a84b4c76e66710@pc33.atlanta.com\r\nCSeq: 314159 INVITE\r\nContact: <sip:TinySIP@192.168.32.131:5060>\r\n"));
    assert_eq!(server.map.calls[0].call_state, CallState::Ringing);

    let sent = server.feed(&response("200 OK", &b_id, "1 INVITE"), b);
    assert_eq!(sent.len(), 1);
    assert!(sent[0].text.starts_with("SIP/2.0 200 OK\r\n"));
    assert_eq!(server.map.calls[0].call_state, CallState::Answered);
    assert_eq!(server.map.calls[0].b_leg_contact, "sip:1002@192.168.1.20:5060");

    let ack = "ACK sip:1002@server SIP/2.0\r\nCall-ID: a84b4c76e66710@pc33.atlanta.com\r\nCSeq: 314159 ACK\r\n\r\n";
    let sent = server.feed(ack, a);
    assert_eq!(sent.len(), 1);
    assert_eq!(sent[0].dest, b);
    assert!(sent[0].text.starts_with("ACK sip:1002@192.168.1.20:5060 SIP/2.0\r\nVia: SIP/2.0/UDP 192.168.32.131:5060;branch=z9hG4bKackB1\r\n"));
    assert!(sent[0].text.contains("Call-ID: b-leg-a84b4c76e66710@pc33.atlanta.com\r\nCSeq: 1 ACK\r\nMax-Forwards: 70\r\n"));
    assert_eq!(server.map.calls[0].call_state, CallState::Connected);

    let bye = "BYE sip:1002@server SIP/2.0\r\nVia: SIP/2.0/UDP 192.168.1.10:5060;branch=z9hG4bKbyeA\r\nFrom: \"Alice\" <sip:1001@server>;tag=1928301774\r\nTo: \"Bob\" <sip:1002@server>;tag=asdf\r\nCall-ID: a84b4c76e66710@pc33.atlanta.com\r\nCSeq: 314160 BYE\r\nContent-Length: 0\r\n\r\n";
    let sent = server.feed(bye, a);
    assert_eq!(sent.len(), 2);
    assert_eq!(sent[0].dest, a);
    assert!(sent[0].text.starts_with("SIP/2.0 200 OK\r\nVia: SIP/2.0/UDP 192.168.1.10:5060;branch=z9hG4bKbyeA\r\n"));
    assert!(sent[0].text.contains("CSeq: 314160 BYE\r\n"));
    assert_eq!(sent[1].dest, b);
    assert!(sent[1].text.starts_with("BYE sip:1002@192.168.1.20:5060 SIP/2.0\r\nVia: SIP/2.0/UDP 192.168.32.131:5060;branch=z9hG4bKbyeB"));
    assert!(sent[1].text.contains("CSeq: 2 BYE\r\n"));
    assert_eq!(server.map.calls[0].call_state, CallState::Disconnecting);

    let sent = server.feed(&response("200 OK", &b_id, "2 BYE"), b);
    assert!(sent.is_empty());
    assert_eq!(server.map.size, 0);
    assert!(!server.map.calls[0].is_active);
    assert_eq!(server.map.calls[0].call_state, CallState::Idle);
    assert!(server.idle_iff_inactive());
}

#[test]
fn bye_from_callee_swaps_from_and_to() {
    let mut server = Server::new();
    let a = local(6000);
    let b = local(7000);
    register_1002(&mut server);
    server.feed(&sample_invite(), a);
    let b_id = server.map.calls[0].b_leg_uuid.clone();
    server.feed(&response("200 OK", &b_id, "1 INVITE"), b);
    let ack = "ACK sip:1002@server SIP/2.0\r\nCall-ID: a84b4c76e66710@pc33.atlanta.com\r\nCSeq: 314159 ACK\r\n\r\n";
    server.feed(ack, a);
    let bye = format!(
        "BYE sip:1001@server SIP/2.0\r\nVia: SIP/2.0/UDP 127.0.0.1:7000;branch=z9hG4bKb\r\nFrom: <sip:1002@server>;tag=asdf\r\nTo: <sip:1001@server>\r\nCall-ID: {}\r\nCSeq: 7 BYE\r\n\r\n",
        b_id
    );
    let sent = server.feed(&bye, b);
    assert_eq!(sent.len(), 2);
    assert_eq!(sent[0].dest, b);
    assert_eq!(sent[1].dest, a);
    assert!(sent[1].text.starts_with("BYE sip:1001@192.168.1.10:5060 SIP/2.0\r\nVia: SIP/2.0/UDP 192.168.32.131:5060;branch=z9hG4bKbyeA"));
    assert!(sent[1].text.contains(
        "\r\nTo: \"Alice\" <sip:1001@server>;tag=1928301774\r\nFrom: \"Bob\" <sip:1002@server>\r\nCall-ID: a84b4c76e66710@pc33.atlanta.com\r\nCSeq: 2 BYE\r\n"
    ));
    assert_eq!(server.map.calls[0].call_state, CallState::Disconnecting);
}

#[test]
fn unknown_callee_gets_not_found_and_slot_is_released() {
    let mut server = Server::new();
    let a = local(6000);
    let invite = sample_invite().replace("To: \"Bob\" <sip:1002@server>", "To: <sip:9999@server>");
    let sent = server.feed(&invite, a);
    assert_eq!(sent.len(), 1);
    assert_eq!(sent[0].dest, a);
    assert!(sent[0].text.starts_with("SIP/2.0 404 Not Found\r\n"));
    assert_eq!(server.map.size, 0);
    assert!(!server.map.calls[0].is_active);
    assert!(server.map.calls[0].a_leg_uuid.is_empty());
}

#[test]
fn unregistered_callee_gets_not_found() {
    let mut server = Server::new();
    let sent = server.feed(&sample_invite(), local(6000));
    assert_eq!(sent.len(), 1);
    assert!(sent[0].text.starts_with("SIP/2.0 404 Not Found\r\n"));
    assert_eq!(server.map.size, 0);
}

#[test]
fn full_table_answers_service_unavailable() {
    let mut server = Server::new();
    for _ in 0..MAX_CALLS {
        assert!(CallMap::allocate_new_call_mut(&mut server.map).is_some());
    }
    let invite = sample_invite().replace("a84b4c76e66710@pc33.atlanta.com", "fresh-call@host");
    let sent = server.feed(&invite, local(6000));
    assert_eq!(sent.len(), 1);
    assert_eq!(sent[0].dest, local(6000));
    assert!(sent[0].text.starts_with(
        "SIP/2.0 503 Service Unavailable\r\nVia: SIP/2.0/UDP 192.168.1.10:5060;branch=z9hG4bK776asdhds\r\n"
    ));
    assert!(sent[0].text.contains("Call-ID: fresh-call@host\r\n"));
    assert_eq!(server.map.size, MAX_CALLS);
}

#[test]
fn cancel_while_ringing() {
    let mut server = Server::new();
    let a = local(6000);
    let b = local(7000);
    register_1002(&mut server);
    server.feed(&sample_invite(), a);
    let b_id = server.map.calls[0].b_leg_uuid.clone();
    server.feed(&response("180 Ringing", &b_id, "1 INVITE"), b);
    assert_eq!(server.map.calls[0].call_state, CallState::Ringing);

    let cancel = "CANCEL sip:1002@server SIP/2.0\r\nVia: SIP/2.0/UDP 192.168.1.10:5060;branch=z9hG4bK776asdhds\r\nFrom: \"Alice\" <sip:1001@server>;tag=1928301774\r\nTo: \"Bob\" <sip:1002@server>\r\nCall-ID: a84b4c76e66710@pc33.atlanta.com\r\nCSeq: 314159 CANCEL\r\n\r\n";
    let sent = server.feed(cancel, a);
    assert_eq!(sent.len(), 3);
    assert_eq!(sent[0].dest, a);
    assert!(sent[0].text.starts_with("SIP/2.0 200 OK\r\n"));
    assert!(sent[0].text.contains("CSeq: 314159 CANCEL\r\n"));
    assert_eq!(sent[1].dest, a);
    assert!(sent[1].text.starts_with("SIP/2.0 487 Request Terminated\r\n"));
    assert_eq!(sent[2].dest, b);
    assert!(sent[2].text.starts_with("CANCEL sip:1002@127.0.0.1:7000 SIP/2.0\r\n"));
    assert!(sent[2].text.contains("CSeq: 1 CANCEL\r\n"));
    assert_eq!(server.map.calls[0].call_state, CallState::Disconnecting);

    server.feed(&response("200 OK", &b_id, "1 CANCEL"), b);
    assert_eq!(server.map.size, 0);
    assert_eq!(server.map.calls[0].call_state, CallState::Idle);
}

#[test]
fn callee_rejection_is_acked_and_forwarded() {
    let mut server = Server::new();
    let a = local(6000);
    let b = local(7000);
    register_1002(&mut server);
    server.feed(&sample_invite(), a);
    let b_id = server.map.calls[0].b_leg_uuid.clone();
    let sent = server.feed(&response("486 Busy Here", &b_id, "1 INVITE"), b);
    assert_eq!(sent.len(), 2);
    assert_eq!(sent[0].dest, b);
    assert!(sent[0].text.starts_with("ACK sip:1002@127.0.0.1:7000 SIP/2.0\r\nVia: SIP/2.0/UDP 192.168.32.131:5060;branch=z9hG4bKack1\r\n"));
    assert!(sent[0].text.contains("CSeq: 1 ACK\r\n"));
    assert_eq!(sent[1].dest, a);
    assert!(sent[1].text.starts_with("SIP/2.0 486 Busy Here\r\nVia: SIP/2.0/UDP 192.168.1.10:5060"));
    assert_eq!(server.map.size, 0);
    assert!(!server.map.calls[0].is_active);
}

#[test]
fn double_release_keeps_size_at_zero() {
    let mut map = CallMap::new();
    let idx = CallMap::allocate_new_call_mut(&mut map).unwrap();
    map.release_call(idx);
    map.release_call(idx);
    assert_eq!(map.size, 0);
    assert!(!map.calls[idx].is_active);
    assert_eq!(map.calls[idx].index, idx);
}

#[test]
fn empty_call_id_is_never_found() {
    let mut map = CallMap::new();
    CallMap::allocate_new_call_mut(&mut map).unwrap();
    assert!(map.calls[0].a_leg_uuid.is_empty());
    assert_eq!(CallMap::find_call_by_callid(&map, ""), (None, 0));
}

#[test]
fn datagram_size_boundary() {
    assert!(accepts_datagram(BUFFER_SIZE));
    assert!(!accepts_datagram(BUFFER_SIZE + 1));
    assert!(!accepts_datagram(0));
    assert!(accepts_datagram(1));
}

#[test]
fn round_robin_wraps() {
    assert_eq!(next_worker(0), 1);
    assert_eq!(next_worker(4), 0);
}

#[test]
fn header_names_are_case_sensitive() {
    let msg = "INVITE sip:x SIP/2.0\r\ncall-id: lower\r\nCall-ID: upper\r\n\r\n";
    assert_eq!(get_header_value(msg, "Call-ID:"), Some("upper"));
    assert_eq!(get_header_value(msg, "CALL-ID:"), None);
}

#[test]
fn size_counts_active_slots_after_each_operation() {
    let mut map = CallMap::new();
    let a = CallMap::allocate_new_call_mut(&mut map).unwrap();
    let b = CallMap::allocate_new_call_mut(&mut map).unwrap();
    let c = CallMap::allocate_new_call_mut(&mut map).unwrap();
    assert_eq!((a, b, c), (0, 1, 2));
    assert_eq!(map.size, 3);
    map.release_call(b);
    assert_eq!(map.size, map.calls.iter().filter(|s| s.is_active).count());
    assert_eq!(CallMap::allocate_new_call_mut(&mut map), Some(1));
    map.release_call(MAX_CALLS + 5);
    assert_eq!(map.size, 3);
    assert_eq!(map.size, map.calls.iter().filter(|s| s.is_active).count());
}

#[test]
fn released_slot_is_neutral_with_its_index() {
    let mut server = Server::new();
    register_1002(&mut server);
    server.feed(&sample_invite(), local(6000));
    assert!(server.map.calls[0].a_leg_addr.is_some());
    server.map.release_call(0);
    let call = &server.map.calls[0];
    assert_eq!(call.index, 0);
    assert!(call.a_leg_uuid.is_empty() && call.b_leg_uuid.is_empty() && call.callee.is_empty());
    assert!(call.a_leg_addr.is_none() && call.b_leg_addr.is_none());
    assert!(call.a_leg_header.via.is_empty() && call.b_leg_header.cseq.is_empty());
    assert!(call.a_leg_contact.is_empty() && call.b_leg_contact.is_empty());
    assert!(!call.a_leg_media.remote_media && !call.b_leg_media.local_media);
    assert_eq!(call.call_state, CallState::Idle);
}

#[test]
fn allocate_release_allocate_reuses_index() {
    let mut map = CallMap::new();
    CallMap::allocate_new_call_mut(&mut map).unwrap();
    let k = CallMap::allocate_new_call_mut(&mut map).unwrap();
    map.release_call(k);
    assert_eq!(CallMap::allocate_new_call_mut(&mut map), Some(k));
}

#[test]
fn two_calls_have_disjoint_call_ids() {
    let mut server = Server::new();
    register_1002(&mut server);
    server.feed(&sample_invite(), local(6000));
    let second = sample_invite().replace("a84b4c76e66710@pc33.atlanta.com", "zz9911second@host");
    server.feed(&second, local(6001));
    assert_eq!(server.active(), 2);
    let (x, y) = (&server.map.calls[0], &server.map.calls[1]);
    for id in [&x.a_leg_uuid, &x.b_leg_uuid] {
        assert!(id != &y.a_leg_uuid && id != &y.b_leg_uuid);
    }
    assert!(server.idle_iff_inactive());
    assert_eq!(server.map.size, server.active());
}

#[test]
fn first_line_keeps_method_case_and_code() {
    assert_eq!(parse_first_line("invite sip:x SIP/2.0"), Some((REQUEST_METHOD, "invite".to_string())));
    assert_eq!(parse_first_line("Bye sip:x SIP/2.0"), Some((REQUEST_METHOD, "Bye".to_string())));
    assert_eq!(parse_first_line("SIP/2.0 180 Ringing"), Some((STATUS_CODE, "180".to_string())));
    assert_eq!(parse_first_line("SIP/2.0 abc Ringing"), None);
    assert_eq!(parse_first_line("INVITE"), None);
    assert_eq!(parse_first_line("PUBLISH sip:x SIP/2.0"), None);
}

#[test]
fn cseq_and_max_forwards_numbers() {
    assert_eq!(extract_cseq_number("CSeq: 314159 INVITE"), Some(314159));
    assert_eq!(extract_cseq_number("CSeq:   +7   BYE"), Some(7));
    assert_eq!(extract_cseq_number("CSeq: 4294967296 BYE"), None);
    assert_eq!(extract_cseq_number("CSeq:"), None);
    assert_eq!(get_max_forwards("A\r\nMax-Forwards:  12 \r\n"), Some(12));
}

#[test]
fn via_parameters_and_host() {
    assert_eq!(
        extract_via_received_rport("Via: SIP/2.0/UDP 1.2.3.4;rport;received=5.6.7.8"),
        (Some("5.6.7.8".to_string()), Some(0))
    );
    assert_eq!(extract_via_received_rport("Via: SIP/2.0/UDP h; rport=5070 "), (None, Some(5070)));
    assert_eq!(extract_via_received_rport("Via: SIP/2.0/UDP h;rport=99999"), (None, None));
    assert_eq!(
        extract_via_host_port("  pc33.atlanta.com;branch=x"),
        Some(("pc33.atlanta.com".to_string(), 5060))
    );
    assert_eq!(extract_via_host_port("host-only"), None);
}

#[test]
fn rport_flag_is_filled_in_on_invite() {
    let mut server = Server::new();
    register_1002(&mut server);
    let invite = sample_invite().replace(";branch=z9hG4bK776asdhds", ";rport;branch=z9hG4bK776asdhds");
    server.feed(&invite, local(6000));
    assert_eq!(
        server.map.calls[0].a_leg_header.via,
        "Via: SIP/2.0/UDP 192.168.1.10:5060;rport;branch=z9hG4bK776asdhds;received=127.0.0.1;rport=6000\r\n"
    );
}

#[test]
fn long_call_ids_are_cut() {
    let long = "x".repeat(300);
    let b = b_leg_id_text(&long);
    assert_eq!(b.chars().count(), MAX_UUID_LENGTH - 1);
    assert!(b.starts_with("b-leg-xxx"));
    assert_eq!(b_leg_id_text("abc"), "b-leg-abc");
    assert_eq!(b_leg_id_text("1234567"), "b-leg-1234567");
    assert_eq!(b_leg_id_text("b-leg-xyz"), "b-leg-b-leg-xyz");
}

#[test]
fn registering_unknown_user_changes_nothing() {
    let mut entries = default_location_entries();
    assert!(!update_location_entry_addr(&mut entries, "4242", local(1)));
    assert!(entries.iter().all(|e| !e.registered));
    assert!(update_location_entry_addr(&mut entries, "1003", PeerAddr { ip: [10, 0, 0, 254], port: 5080 }));
    assert_eq!(entries[2].ip_str, "10.0.0.254");
    assert_eq!(get_registered_addr(&entries, "1003"), Some(PeerAddr { ip: [10, 0, 0, 254], port: 5080 }));
    assert_eq!(get_registered_addr(&entries, "1004"), None);
}

#[test]
fn exact_trying_and_register_answers() {
    let mut server = Server::new();
    let reg = register_1002(&mut server);
    assert_eq!(
        reg[0].text,
        "SIP/2.0 200 OK\r\nVia: SIP/2.0/UDP 127.0.0.1:7000;branch=z9hG4bKreg\r\nFrom: <sip:1002@server>;tag=r1\r\nTo: <sip:1002@server>\r\nCall-ID: reg-1002\r\nCSeq: 1 REGISTER\r\nContact: <sip:1002@127.0.0.1:7000>;expires=7200\r\nUser-Agent: TinySIP-Rust\r\nContent-Length: 0\r\n\r\n"
    );
    let unknown = "REGISTER sip:server SIP/2.0\r\nVia: V\r\nFrom: <sip:4242@server>\r\nTo: T\r\nCall-ID: c\r\nCSeq: 2 REGISTER\r\n\r\n";
    let sent = server.feed(unknown, local(7100));
    assert_eq!(
        sent[0].text,
        "SIP/2.0 404 Not Found\r\nVia: V\r\nFrom: <sip:4242@server>\r\nTo: T\r\nCall-ID: c\r\nCSeq: 2 REGISTER\r\nUser-Agent: TinySIP-Rust\r\nContent-Length: 0\r\n\r\n"
    );
    let sent = server.feed(&sample_invite(), local(6000));
    assert_eq!(
        sent[0].text,
        "SIP/2.0 100 Trying\r\nVia: SIP/2.0/UDP 192.168.1.10:5060;branch=z9hG4bK776asdhds;received=127.0.0.1\r\nFrom: \"Alice\" <sip:1001@server>;tag=1928301774\r\nTo: \"Bob\" <sip:1002@server>\r\nCall-ID: a84b4c76e66710@pc33.atlanta.com\r\nCSeq: 314159 INVITE\r\nUser-Agent: TinySIP-Rust\r\nContent-Length: 0\r\n\r\n"
    );
}

#[test]
fn session_progress_passes_sdp_and_notes_media() {
    let mut server = Server::new();
    let b = local(7000);
    register_1002(&mut server);
    server.feed(&sample_invite(), local(6000));
    let b_id = server.map.calls[0].b_leg_uuid.clone();
    let progress = format!(
        "SIP/2.0 183 Session Progress\r\nTo: <sip:1001@server>;tag=p\r\nCall-ID: {}\r\nCSeq: 1 INVITE\r\nContent-Type: application/sdp\r\n\r\nv=0\r\n",
        b_id
    );
    let sent = server.feed(&progress, b);
    assert_eq!(sent.len(), 1);
    assert!(sent[0].text.starts_with("SIP/2.0 183 Session Progress\r\n"));
    assert!(sent[0].text.ends_with("User-Agent: TinySIP-Rust\r\nContent-Type: application/sdp\r\nContent-Length: 5\r\n\r\nv=0\r\n\r\n"));
    let call = &server.map.calls[0];
    assert_eq!(call.call_state, CallState::Routing);
    assert!(call.a_leg_media.local_media && call.b_leg_media.remote_media);
    assert_eq!(call.b_leg_header.to, "To: <sip:1001@server>;tag=p");
}

#[test]
fn stray_messages_are_dropped() {
    let mut server = Server::new();
    let bye = "BYE sip:x SIP/2.0\r\nCall-ID: nobody\r\n\r\n";
    assert!(server.feed(bye, local(1)).is_empty());
    assert!(server.feed("garbage", local(1)).is_empty());
    assert_eq!(server.map.size, 0);
}

#[test]
fn blank_header_value_is_empty() {
    let msg = "OPTIONS sip:x SIP/2.0\r\nSubject:   \r\nCall-ID:\t\r\n\r\n";
    assert_eq!(get_header_value(msg, "Subject:"), Some(""));
    assert_eq!(get_header_value(msg, "Call-ID:"), Some(""));
}

#[test]
fn counter_advances_only_for_server_requests() {
    let mut server = Server::new();
    let a = local(6000);
    let b = local(7000);
    register_1002(&mut server);
    assert_eq!(server.counter, 1);
    server.feed(&sample_invite(), a);
    assert_eq!(server.counter, 2);
    let b_id = server.map.calls[0].b_leg_uuid.clone();
    server.feed(&response("180 Ringing", &b_id, "1 INVITE"), b);
    server.feed(&response("200 OK", &b_id, "1 INVITE"), b);
    assert_eq!(server.counter, 2);
    let bye = "BYE sip:1002@server SIP/2.0\r\nCall-ID: a84b4c76e66710@pc33.atlanta.com\r\nCSeq: 314160 BYE\r\n\r\n";
    let sent = server.feed(bye, a);
    assert!(sent[1].text.contains("CSeq: 2 BYE\r\n"));
    assert_eq!(server.counter, 3);
}

#[test]
fn next_cseq_returns_then_bumps() {
    let mut counter: usize = 41;
    assert_eq!(next_cseq(&mut counter), 41);
    assert_eq!(counter, 42);
    let mut top = usize::MAX;
    assert_eq!(next_cseq(&mut top), usize::MAX);
    assert_eq!(top, 0);
}
