//! What a worker does with one decoded datagram: REGISTER to the directory, any other
//! message to the call table and the dialog state machine; and the receive loop's choices.

use vstd::prelude::*;

use crate::call_map::{
    allocated, allocation_slot, lemma_active_update_keeps_table, lemma_allocate_keeps_table,
    lemma_allocation_in_range, lemma_lookup_in_range, lemma_lookup_none,
    lemma_release_keeps_table, lookup, released, table_ok,
};
use crate::compose::{echo_response, echo_response_text, register_ok, register_ok_text, Outbound};
use crate::dialog::{
    call_ready, handle_state_machine, lemma_step_frame, ready_has_step_addrs, lemma_step_ids, needs_fresh,
    sends_view, step, Inbound, MsgView, Outcome,
};
use crate::parsing::{
    extract_username_from_uri, first_line, first_line_kind, first_line_of, get_call_id, get_cseq_header, get_from_header,
    get_sdp_body, get_to_header, get_via_header, header_line, parse_first_line, sdp_body_of,
    username_of,
};
use crate::rewrite::{
    b_leg_id, call_id_of, contact_of, cseq_of, from_of, read_headers, to_of, via_of,
};
use crate::sip_defs::{
    fresh_call, next_cseq, next_number, registration, update_location_entry_addr, Call, CallMap, CallMapView,
    CallState, CallView, LocationEntry, PeerAddr, A_LEG, BUFFER_SIZE, MAX_THREADS,
    REQUEST_METHOD,
};
use crate::text::{chars_of, find, find_from, lemma_find_some, push_str, same_text};

verus! {

/// Relies on `SystemTime::now` and `UNIX_EPOCH`: the milliseconds since the epoch, 0 where
/// the clock stands before it.
#[verifier::external_body]
fn clock_millis() -> u128 {
    match std::time::SystemTime::now().duration_since(std::time::UNIX_EPOCH) {
        Ok(d) => d.as_millis(),
        Err(_) => 0,
    }
}

/// The table once a step on its slot `i` has had outcome `o`.
pub open spec fn apply_step(v: CallMapView, i: int, o: Outcome) -> CallMapView {
    let w = CallMapView { slots: v.slots.update(i, o.call), size: v.size };
    if o.release {
        released(w, i)
    } else {
        w
    }
}

/// The `503` for an INVITE that finds the table full, where the INVITE has Via, From, To
/// and CSeq lines.
pub open spec fn busy_sends(raw: Seq<char>, source: PeerAddr) -> Seq<(PeerAddr, Seq<char>)> {
    match (
        header_line(raw, "Via:"@, "Via: "@),
        header_line(raw, "From:"@, "From: "@),
        header_line(raw, "To:"@, "To: "@),
        header_line(raw, "CSeq:"@, "CSeq: "@),
    ) {
        (Some(via), Some(from), Some(to), Some(cseq)) => seq![
            (
                source,
                echo_response(
                    "SIP/2.0 503 Service Unavailable\r\n"@,
                    via,
                    from,
                    to,
                    call_id_of(raw),
                    cseq,
                ),
            ),
        ],
        _ => seq![],
    }
}

/// What a message of a call does to the table and what it sends: a message whose first
/// line does not parse, or a REGISTER, does nothing here; one whose Call-ID names an
/// active slot steps that slot with the leg found; an INVITE with a new Call-ID takes the
/// lowest free slot and steps it as the A-leg, or gets `503` where the table is full; any
/// other message is dropped.
pub open spec fn dispatch(
    v: CallMapView,
    raw: Seq<char>,
    source: PeerAddr,
    dir: Seq<LocationEntry>,
    cseq: nat,
    branch: nat,
) -> (CallMapView, Seq<(PeerAddr, Seq<char>)>) {
    match first_line_kind(first_line(raw)) {
        None => (v, seq![]),
        Some((kind, token)) => if kind == REQUEST_METHOD && token == "REGISTER"@ {
            (v, seq![])
        } else {
            let m = MsgView { kind, token, has_sdp: sdp_body_of(raw) is Some, source, raw };
            match lookup(v.slots, call_id_of(raw)) {
                (Some(i), leg) => {
                    let o = step(v.slots[i], m, leg, dir, cseq, branch);
                    (apply_step(v, i, o), o.sends)
                },
                (None, _) => if kind == REQUEST_METHOD && token == "INVITE"@ {
                    match allocation_slot(v) {
                        Some(i) => {
                            let w = allocated(v, i);
                            let o = step(w.slots[i], m, A_LEG, dir, cseq, branch);
                            (apply_step(w, i, o), o.sends)
                        },
                        None => (v, busy_sends(raw, source)),
                    }
                } else {
                    (v, seq![])
                },
            }
        },
    }
}

/// Whether a message takes a number from the CSeq counter: where it steps a slot into
/// sending an INVITE to the callee or a BYE.
pub open spec fn takes_number(v: CallMapView, raw: Seq<char>, source: PeerAddr) -> bool {
    match first_line_kind(first_line(raw)) {
        None => false,
        Some((kind, token)) => if kind == REQUEST_METHOD && token == "REGISTER"@ {
            false
        } else {
            let m = MsgView { kind, token, has_sdp: sdp_body_of(raw) is Some, source, raw };
            match lookup(v.slots, call_id_of(raw)) {
                (Some(i), leg) => needs_fresh(v.slots[i], m, leg),
                (None, _) => kind == REQUEST_METHOD && token == "INVITE"@ && allocation_slot(v) is Some,
            }
        },
    }
}

fn takes_fresh(call: &Call, m: &Inbound, leg: i32) -> (r: bool)
    ensures
        r == needs_fresh(call@, m@, leg),
{
    let request = m.message_type == REQUEST_METHOD;
    match call.call_state {
        CallState::Idle => request && same_text(m.method_or_code.as_str(), "INVITE") && leg == A_LEG,
        CallState::Answered | CallState::Connected => request && same_text(
            m.method_or_code.as_str(),
            "BYE",
        ),
        _ => false,
    }
}

/// Steps slot `index` of the table; the CSeq number and branch of a request it originates
/// come from `counter` and the clock.
fn run_step(
    map: &mut CallMap,
    index: usize,
    m: &Inbound,
    leg: i32,
    dir: &Vec<LocationEntry>,
    counter: &mut usize,
) -> (r: Vec<Outbound>)
    requires
        index < old(map)@.slots.len(),
        call_ready(old(map)@.slots[index as int]),
    ensures
        exists|branch: nat|
            final(map)@ == apply_step(
                old(map)@,
                index as int,
                #[trigger] step(old(map)@.slots[index as int], m@, leg, dir@, *old(counter) as nat, branch),
            ) && sends_view(r@) == step(
                old(map)@.slots[index as int],
                m@,
                leg,
                dir@,
                *old(counter) as nat,
                branch,
            ).sends,
        *final(counter) == if needs_fresh(old(map)@.slots[index as int], m@, leg) {
            next_number(*old(counter))
        } else {
            *old(counter)
        },
{
    let ghost v = map@;
    assert(map.calls@[index as int]@ == v.slots[index as int]);
    let fresh = takes_fresh(&map.calls[index], m, leg);
    let cseq = *counter;
    let branch = if fresh {
        next_cseq(counter);
        clock_millis()
    } else {
        0u128
    };
    proof {
        ready_has_step_addrs(v.slots[index as int], m@, leg);
    }
    let (out, release) = handle_state_machine(&mut map.calls[index], m, leg, dir, cseq, branch);
    let ghost o = step(v.slots[index as int], m@, leg, dir@, cseq as nat, branch as nat);
    proof {
        assert(map@.slots =~= v.slots.update(index as int, o.call));
    }
    if release {
        map.release_call(index);
    }
    proof {
        assert(map@ == apply_step(v, index as int, o));
        assert(sends_view(out@) == o.sends);
    }
    out
}

fn busy_response(message_str: &str, call_id: &str, source: PeerAddr) -> (r: Vec<Outbound>)
    requires
        call_id@ == call_id_of(message_str@),
    ensures
        sends_view(r@) == busy_sends(message_str@, source),
{
    let mut out: Vec<Outbound> = Vec::new();
    match (
        get_via_header(message_str),
        get_from_header(message_str),
        get_to_header(message_str),
        get_cseq_header(message_str),
    ) {
        (Some(via), Some(from), Some(to), Some(cseq)) => {
            let text = echo_response_text(
                "SIP/2.0 503 Service Unavailable\r\n",
                via.as_str(),
                from.as_str(),
                to.as_str(),
                call_id,
                cseq.as_str(),
            );
            out.push(Outbound { dest: source, text });
        },
        _ => {},
    }
    proof {
        assert(sends_view(out@) =~= busy_sends(message_str@, source));
    }
    out
}

fn dispatch_message(
    map: &mut CallMap,
    dir: &Vec<LocationEntry>,
    message_str: &str,
    source: PeerAddr,
    counter: &mut usize,
) -> (r: Vec<Outbound>)
    requires
        table_ok(old(map)@),
        all_ready(old(map)@),
    ensures
        exists|branch: nat|
            (final(map)@, sends_view(r@)) == #[trigger] dispatch(
                old(map)@,
                message_str@,
                source,
                dir@,
                *old(counter) as nat,
                branch,
            ),
        *final(counter) == if takes_number(old(map)@, message_str@, source) {
            next_number(*old(counter))
        } else {
            *old(counter)
        },
{
    let ghost v = map@;
    let ghost n0 = *counter;
    let line = first_line_of(message_str);
    let (kind, token) = match parse_first_line(line.as_str()) {
        Some(x) => x,
        None => {
            let out: Vec<Outbound> = Vec::new();
            proof {
                assert(sends_view(out@) =~= seq![]);
                assert((map@, sends_view(out@)) == dispatch(v, message_str@, source, dir@, n0 as nat, 0));
            }
            return out;
        },
    };
    if kind == REQUEST_METHOD && same_text(token.as_str(), "REGISTER") {
        let out: Vec<Outbound> = Vec::new();
        proof {
            assert(sends_view(out@) =~= seq![]);
            assert((map@, sends_view(out@)) == dispatch(v, message_str@, source, dir@, n0 as nat, 0));
        }
        return out;
    }
    let call_id = match get_call_id(message_str) {
        Some(c) => c,
        None => String::new(),
    };
    let has_sdp = get_sdp_body(message_str).is_some();
    let invite = kind == REQUEST_METHOD && same_text(token.as_str(), "INVITE");
    let m = Inbound {
        message_type: kind,
        method_or_code: token,
        has_sdp,
        source,
        raw: String::from_str(message_str),
    };
    let (found, leg) = CallMap::find_call_by_callid(map, call_id.as_str());
    match found {
        Some(i) => {
            proof {
                lemma_lookup_in_range(v.slots, call_id@);
            }
            let out = run_step(map, i, &m, leg, dir, counter);
            proof {
                let br = choose|br: nat|
                    map@ == apply_step(v, i as int, #[trigger] step(v.slots[i as int], m@, leg, dir@, n0 as nat, br))
                        && sends_view(out@) == step(v.slots[i as int], m@, leg, dir@, n0 as nat, br).sends;
                assert((map@, sends_view(out@)) == dispatch(v, message_str@, source, dir@, n0 as nat, br));
            }
            out
        },
        None => {
            if invite {
                match CallMap::allocate_new_call_mut(map) {
                    Some(i) => {
                        proof {
                            lemma_allocation_in_range(v);
                        }
                        let ghost w = map@;
                        let out = run_step(map, i, &m, A_LEG, dir, counter);
                        proof {
                            let br = choose|br: nat|
                                map@ == apply_step(w, i as int, #[trigger] step(w.slots[i as int], m@, A_LEG, dir@, n0 as nat, br))
                                    && sends_view(out@) == step(w.slots[i as int], m@, A_LEG, dir@, n0 as nat, br).sends;
                            assert((map@, sends_view(out@)) == dispatch(v, message_str@, source, dir@, n0 as nat, br));
                        }
                        out
                    },
                    None => {
                        let out = busy_response(message_str, call_id.as_str(), source);
                        proof {
                            assert((map@, sends_view(out@)) == dispatch(v, message_str@, source, dir@, n0 as nat, 0));
                        }
                        out
                    },
                }
            } else {
                let out: Vec<Outbound> = Vec::new();
                proof {
                    assert(sends_view(out@) =~= seq![]);
                    assert((map@, sends_view(out@)) == dispatch(v, message_str@, source, dir@, n0 as nat, 0));
                }
                out
            }
        },
    }
}

/// Handles one message of a call, not a REGISTER, under the table's lock: finds or
/// allocates its slot and steps it, or answers `503` where the table is full. The table's
/// invariants hold afterwards.
pub fn handle_call_message(
    map: &mut CallMap,
    dir: &Vec<LocationEntry>,
    message_str: &str,
    source: PeerAddr,
    counter: &mut usize,
) -> (r: Vec<Outbound>)
    requires
        table_ok(old(map)@),
        all_ready(old(map)@),
    ensures
        exists|branch: nat|
            (final(map)@, sends_view(r@)) == #[trigger] dispatch(
                old(map)@,
                message_str@,
                source,
                dir@,
                *old(counter) as nat,
                branch,
            ),
        *final(counter) == if takes_number(old(map)@, message_str@, source) {
            next_number(*old(counter))
        } else {
            *old(counter)
        },
        table_ok(final(map)@),
        all_ready(final(map)@),
        idle_iff_inactive(old(map)@) ==> idle_iff_inactive(final(map)@),
        ids_disjoint(old(map)@) && idle_iff_inactive(old(map)@) && new_ids_free(
            old(map)@,
            message_str@,
        ) ==> ids_disjoint(final(map)@),
{
    let ghost v = map@;
    let ghost n0 = *counter;
    let out = dispatch_message(map, dir, message_str, source, counter);
    proof {
        let br = choose|br: nat|
            (map@, sends_view(out@)) == #[trigger] dispatch(v, message_str@, source, dir@, n0 as nat, br);
        dispatch_cases(v, message_str@, source, dir@, n0 as nat, br);
        if ids_disjoint(v) && idle_iff_inactive(v) && new_ids_free(v, message_str@) {
            dispatch_keeps_ids_disjoint(v, message_str@, source, dir@, n0 as nat, br);
        }
    }
    out
}

/// A REGISTER: the user named in From is looked up; a known user is recorded at the
/// sender's address and gets `200 OK` with its Contact and an expiry, an unknown one gets
/// `404 Not Found`; a From without a user gets no answer.
pub open spec fn register_outcome(
    old_dir: Seq<LocationEntry>,
    new_dir: Seq<LocationEntry>,
    raw: Seq<char>,
    source: PeerAddr,
    sends: Seq<(PeerAddr, Seq<char>)>,
) -> bool {
    let via = via_of(raw);
    let from = from_of(raw);
    let to = to_of(raw);
    let id = call_id_of(raw);
    let cseq = cseq_of(raw);
    let contact = contact_of(raw);
    match username_of(from) {
        None => new_dir == old_dir && sends == Seq::<(PeerAddr, Seq<char>)>::empty(),
        Some(u) => exists|found: bool|
            {
                &&& #[trigger] registration(old_dir, new_dir, u, source, found)
                &&& sends == if found {
                    seq![
                        (
                            source,
                            register_ok(
                                via,
                                from,
                                to,
                                id,
                                cseq,
                                if contact.len() == 0 {
                                    contact
                                } else {
                                    contact + ";expires=7200"@
                                },
                            ),
                        ),
                    ]
                } else {
                    seq![(source, echo_response("SIP/2.0 404 Not Found\r\n"@, via, from, to, id, cseq))]
                }
            },
    }
}

/// Handles a REGISTER under the directory's lock.
pub fn handle_register(entries: &mut Vec<LocationEntry>, message_str: &str, source: PeerAddr) -> (r: Vec<
    Outbound,
>)
    ensures
        register_outcome(old(entries)@, final(entries)@, message_str@, source, sends_view(r@)),
{
    let h = read_headers(message_str);
    let mut out: Vec<Outbound> = Vec::new();
    let u = match extract_username_from_uri(h.from.as_str()) {
        Some(u) => u,
        None => {
            proof {
                assert(sends_view(out@) =~= Seq::<(PeerAddr, Seq<char>)>::empty());
            }
            return out;
        },
    };
    let found = update_location_entry_addr(entries, u.as_str(), source);
    if found {
        let contact = if h.contact.as_str().unicode_len() == 0 {
            String::new()
        } else {
            let mut c = h.contact.clone();
            push_str(&mut c, ";expires=7200");
            c
        };
        proof {
            assert(h.contact@.len() == 0 ==> contact@ =~= h.contact@);
        }
        let text = register_ok_text(
            h.via.as_str(),
            h.from.as_str(),
            h.to.as_str(),
            h.call_id.as_str(),
            h.cseq.as_str(),
            contact.as_str(),
        );
        out.push(Outbound { dest: source, text });
    } else {
        let text = echo_response_text(
            "SIP/2.0 404 Not Found\r\n",
            h.via.as_str(),
            h.from.as_str(),
            h.to.as_str(),
            h.call_id.as_str(),
            h.cseq.as_str(),
        );
        out.push(Outbound { dest: source, text });
    }
    proof {
        let raw = message_str@;
        assert(registration(old(entries)@, entries@, u@, source, found));
        assert(sends_view(out@) =~= if found {
            seq![
                (
                    source,
                    register_ok(
                        via_of(raw),
                        from_of(raw),
                        to_of(raw),
                        call_id_of(raw),
                        cseq_of(raw),
                        if contact_of(raw).len() == 0 {
                            contact_of(raw)
                        } else {
                            contact_of(raw) + ";expires=7200"@
                        },
                    ),
                ),
            ]
        } else {
            seq![
                (
                    source,
                    echo_response(
                        "SIP/2.0 404 Not Found\r\n"@,
                        via_of(raw),
                        from_of(raw),
                        to_of(raw),
                        call_id_of(raw),
                        cseq_of(raw),
                    ),
                ),
            ]
        });
    }
    out
}

/// Whether a message is a REGISTER, by its first line.
pub open spec fn is_register(raw: Seq<char>) -> bool {
    first_line_kind(first_line(raw)) matches Some((kind, token)) && kind == REQUEST_METHOD
        && token == "REGISTER"@
}

/// Handles one decoded datagram from `source`: a REGISTER goes to the directory, any other
/// message to the call table. Returns the datagrams to send, in order.
pub fn process_sip_message(
    map: &mut CallMap,
    entries: &mut Vec<LocationEntry>,
    message_str: &str,
    source: PeerAddr,
    counter: &mut usize,
) -> (r: Vec<Outbound>)
    requires
        table_ok(old(map)@),
        all_ready(old(map)@),
    ensures
        table_ok(final(map)@),
        all_ready(final(map)@),
        idle_iff_inactive(old(map)@) ==> idle_iff_inactive(final(map)@),
        is_register(message_str@) ==> final(map)@ == old(map)@ && register_outcome(
            old(entries)@,
            final(entries)@,
            message_str@,
            source,
            sends_view(r@),
        ),
        is_register(message_str@) ==> *final(counter) == *old(counter),
        !is_register(message_str@) ==> final(entries)@ == old(entries)@ && exists|branch: nat|
            (final(map)@, sends_view(r@)) == #[trigger] dispatch(
                old(map)@,
                message_str@,
                source,
                old(entries)@,
                *old(counter) as nat,
                branch,
            ),
        !is_register(message_str@) ==> *final(counter) == if takes_number(
            old(map)@,
            message_str@,
            source,
        ) {
            next_number(*old(counter))
        } else {
            *old(counter)
        },
        ids_disjoint(old(map)@) && idle_iff_inactive(old(map)@) && new_ids_free(
            old(map)@,
            message_str@,
        ) ==> ids_disjoint(final(map)@),
{
    let line = first_line_of(message_str);
    let register = match parse_first_line(line.as_str()) {
        Some((kind, token)) => kind == REQUEST_METHOD && same_text(token.as_str(), "REGISTER"),
        None => false,
    };
    if register {
        handle_register(entries, message_str, source)
    } else {
        handle_call_message(map, entries, message_str, source, counter)
    }
}

/// All slots of a table are ready.
pub open spec fn all_ready(v: CallMapView) -> bool {
    forall|i: int| 0 <= i < v.slots.len() ==> call_ready(#[trigger] v.slots[i])
}

/// Every slot is `Idle` exactly when it is inactive.
pub open spec fn idle_iff_inactive(v: CallMapView) -> bool {
    forall|i: int|
        0 <= i < v.slots.len() ==> ((#[trigger] v.slots[i]).call_state == CallState::Idle
            <==> !v.slots[i].is_active)
}

proof fn lemma_apply_step_keeps(v: CallMapView, i: int, o: Outcome, c: CallView)
    requires
        table_ok(v),
        all_ready(v),
        0 <= i < v.slots.len(),
        v.slots[i].is_active,
        c == v.slots[i],
        o.call.index == c.index,
        o.call.is_active == c.is_active,
        call_ready(o.call),
    ensures
        table_ok(apply_step(v, i, o)),
        all_ready(apply_step(v, i, o)),
        idle_iff_inactive(v) && (o.release || o.call.call_state != CallState::Idle)
            ==> idle_iff_inactive(apply_step(v, i, o)),
{
    assert(slot_index(v, i));
    let w = CallMapView { slots: v.slots.update(i, o.call), size: v.size };
    lemma_active_update_keeps_table(v, i, o.call);
    assert forall|j: int| 0 <= j < w.slots.len() implies call_ready(#[trigger] w.slots[j]) by {
        if j != i {
            assert(w.slots[j] == v.slots[j]);
        }
    }
    if o.release {
        lemma_release_keeps_table(w, i);
        let x = released(w, i);
        assert forall|j: int| 0 <= j < x.slots.len() implies call_ready(#[trigger] x.slots[j]) by {
            if j != i {
                assert(x.slots[j] == w.slots[j]);
            }
        }
        if idle_iff_inactive(v) {
            assert forall|j: int| 0 <= j < x.slots.len() implies ((#[trigger] x.slots[j]).call_state
                == CallState::Idle <==> !x.slots[j].is_active) by {
                if j != i {
                    assert(x.slots[j] == v.slots[j]);
                }
            }
        }
    } else if idle_iff_inactive(v) && o.call.call_state != CallState::Idle {
        assert forall|j: int| 0 <= j < w.slots.len() implies ((#[trigger] w.slots[j]).call_state
            == CallState::Idle <==> !w.slots[j].is_active) by {
            if j != i {
                assert(w.slots[j] == v.slots[j]);
            }
        }
    }
}

spec fn slot_index(v: CallMapView, i: int) -> bool {
    v.slots[i].index == i
}

/// Every message keeps the table's invariant: `MAX_CALLS` slots, inactive ones neutral,
/// and `size` the number of active ones; and every slot past `Idle` knows both legs.
pub proof fn dispatch_keeps_table(
    v: CallMapView,
    raw: Seq<char>,
    source: PeerAddr,
    dir: Seq<LocationEntry>,
    cseq: nat,
    branch: nat,
)
    requires
        table_ok(v),
        all_ready(v),
    ensures
        table_ok(dispatch(v, raw, source, dir, cseq, branch).0),
        all_ready(dispatch(v, raw, source, dir, cseq, branch).0),
{
    dispatch_cases(v, raw, source, dir, cseq, branch);
}

/// A table in which exactly the inactive slots are `Idle` stays so after every message.
pub proof fn dispatch_keeps_idle_iff_inactive(
    v: CallMapView,
    raw: Seq<char>,
    source: PeerAddr,
    dir: Seq<LocationEntry>,
    cseq: nat,
    branch: nat,
)
    requires
        table_ok(v),
        all_ready(v),
        idle_iff_inactive(v),
    ensures
        idle_iff_inactive(dispatch(v, raw, source, dir, cseq, branch).0),
{
    dispatch_cases(v, raw, source, dir, cseq, branch);
}

proof fn dispatch_cases(
    v: CallMapView,
    raw: Seq<char>,
    source: PeerAddr,
    dir: Seq<LocationEntry>,
    cseq: nat,
    branch: nat,
)
    requires
        table_ok(v),
        all_ready(v),
    ensures
        table_ok(dispatch(v, raw, source, dir, cseq, branch).0),
        all_ready(dispatch(v, raw, source, dir, cseq, branch).0),
        idle_iff_inactive(v) ==> idle_iff_inactive(dispatch(v, raw, source, dir, cseq, branch).0),
{
    match first_line_kind(first_line(raw)) {
        None => {},
        Some((kind, token)) => {
            if !(kind == REQUEST_METHOD && token == "REGISTER"@) {
                let m = MsgView { kind, token, has_sdp: sdp_body_of(raw) is Some, source, raw };
                lemma_lookup_in_range(v.slots, call_id_of(raw));
                match lookup(v.slots, call_id_of(raw)) {
                    (Some(i), leg) => {
                        let c = v.slots[i];
                        lemma_step_frame(c, m, leg, dir, cseq, branch);
                        lemma_apply_step_keeps(v, i, step(c, m, leg, dir, cseq, branch), c);
                    },
                    (None, _) => {
                        if kind == REQUEST_METHOD && token == "INVITE"@ {
                            lemma_allocation_in_range(v);
                            match allocation_slot(v) {
                                Some(i) => {
                                    lemma_allocate_keeps_table(v, i);
                                    let w = allocated(v, i);
                                    let c = w.slots[i];
                                    assert(c == fresh_call(i as usize));
                                    assert forall|j: int| 0 <= j < w.slots.len() implies call_ready(
                                        #[trigger] w.slots[j],
                                    ) by {
                                        if j != i {
                                            assert(w.slots[j] == v.slots[j]);
                                        }
                                    }
                                    lemma_step_frame(c, m, A_LEG, dir, cseq, branch);
                                    lemma_apply_step_keeps(w, i, step(c, m, A_LEG, dir, cseq, branch), c);
                                    if idle_iff_inactive(v) {
                                        let o = step(c, m, A_LEG, dir, cseq, branch);
                                        let x = apply_step(w, i, o);
                                        assert forall|j: int| 0 <= j < x.slots.len() implies ((
                                        #[trigger] x.slots[j]).call_state == CallState::Idle
                                            <==> !x.slots[j].is_active) by {
                                            if j != i {
                                                assert(x.slots[j] == v.slots[j]);
                                            }
                                        }
                                    }
                                },
                                None => {},
                            }
                        }
                    },
                }
            }
        },
    }
}

/// Whether the receive loop takes a datagram of `len` bytes: one that is not empty and
/// fits in `BUFFER_SIZE`.
pub fn accepts_datagram(len: usize) -> (r: bool)
    ensures
        r == (0 < len && len <= BUFFER_SIZE),
{
    len > 0 && len <= BUFFER_SIZE
}

/// The worker that the receive loop deals to after worker `i`, round robin.
pub fn next_worker(i: usize) -> (r: usize)
    requires
        i < MAX_THREADS,
    ensures
        r == (i + 1) % (MAX_THREADS as int),
        r < MAX_THREADS,
{
    (i + 1) % MAX_THREADS
}

/// Two slots share no Call-ID.
pub open spec fn ids_apart(x: CallView, y: CallView) -> bool {
    &&& x.a_leg_uuid != y.a_leg_uuid
    &&& x.a_leg_uuid != y.b_leg_uuid
    &&& x.b_leg_uuid != y.a_leg_uuid
    &&& x.b_leg_uuid != y.b_leg_uuid
}

/// No two active slots share a Call-ID.
pub open spec fn ids_disjoint(v: CallMapView) -> bool {
    forall|i: int, j: int|
        0 <= i < v.slots.len() && 0 <= j < v.slots.len() && i != j && v.slots[i].is_active
            && v.slots[j].is_active ==> ids_apart(#[trigger] v.slots[i], #[trigger] v.slots[j])
}

/// The Call-IDs that a new call on message `raw` would take are free: its Call-ID is not
/// empty, and the B-leg Call-ID made from it is held by no active slot. Without this, a
/// call whose A-leg Call-ID is `b-leg-x` and a new INVITE with Call-ID `x` would share
/// `b-leg-x`, and two INVITEs with empty Call-IDs would share the empty one.
pub open spec fn new_ids_free(v: CallMapView, raw: Seq<char>) -> bool {
    let b = b_leg_id(call_id_of(raw));
    &&& call_id_of(raw).len() > 0
    &&& forall|j: int|
        0 <= j < v.slots.len() && (#[trigger] v.slots[j]).is_active ==> b != v.slots[j].a_leg_uuid
            && b != v.slots[j].b_leg_uuid
}

/// Where the Call-IDs a new call would take are free, no message makes two active slots
/// share a Call-ID.
pub proof fn dispatch_keeps_ids_disjoint(
    v: CallMapView,
    raw: Seq<char>,
    source: PeerAddr,
    dir: Seq<LocationEntry>,
    cseq: nat,
    branch: nat,
)
    requires
        table_ok(v),
        all_ready(v),
        idle_iff_inactive(v),
        ids_disjoint(v),
        new_ids_free(v, raw),
    ensures
        ids_disjoint(dispatch(v, raw, source, dir, cseq, branch).0),
{
    dispatch_cases(v, raw, source, dir, cseq, branch);
    match first_line_kind(first_line(raw)) {
        None => {},
        Some((kind, token)) => {
            if !(kind == REQUEST_METHOD && token == "REGISTER"@) {
                let m = MsgView { kind, token, has_sdp: sdp_body_of(raw) is Some, source, raw };
                let id = call_id_of(raw);
                lemma_lookup_in_range(v.slots, id);
                match lookup(v.slots, id) {
                    (Some(i), leg) => {
                        let c = v.slots[i];
                        let o = step(c, m, leg, dir, cseq, branch);
                        lemma_step_ids(c, m, leg, dir, cseq, branch);
                        lemma_step_frame(c, m, leg, dir, cseq, branch);
                        let x = apply_step(v, i, o);
                        assert forall|p: int, q: int|
                            0 <= p < x.slots.len() && 0 <= q < x.slots.len() && p != q
                                && x.slots[p].is_active && x.slots[q].is_active implies ids_apart(
                            #[trigger] x.slots[p],
                            #[trigger] x.slots[q],
                        ) by {
                            assert(v.slots[p].is_active && v.slots[q].is_active);
                            assert(ids_apart(v.slots[p], v.slots[q]));
                        }
                    },
                    (None, _) => {
                        if kind == REQUEST_METHOD && token == "INVITE"@ {
                            lemma_allocation_in_range(v);
                            match allocation_slot(v) {
                                Some(i) => {
                                    let w = allocated(v, i);
                                    let c = w.slots[i];
                                    let o = step(c, m, A_LEG, dir, cseq, branch);
                                    lemma_step_ids(c, m, A_LEG, dir, cseq, branch);
                                    lemma_step_frame(c, m, A_LEG, dir, cseq, branch);
                                    let x = apply_step(w, i, o);
                                    assert forall|p: int, q: int|
                                        0 <= p < x.slots.len() && 0 <= q < x.slots.len() && p
                                            != q && x.slots[p].is_active
                                            && x.slots[q].is_active implies ids_apart(
                                        #[trigger] x.slots[p],
                                        #[trigger] x.slots[q],
                                    ) by {
                                        if p == i {
                                            lemma_lookup_none(v.slots, id, q);
                                            assert(x.slots[q] == v.slots[q]);
                                            assert(!o.release);
                                        } else if q == i {
                                            lemma_lookup_none(v.slots, id, p);
                                            assert(x.slots[p] == v.slots[p]);
                                            assert(!o.release);
                                        } else {
                                            assert(x.slots[p] == v.slots[p]);
                                            assert(x.slots[q] == v.slots[q]);
                                        }
                                    }
                                },
                                None => {},
                            }
                        }
                    },
                }
            }
        },
    }
}

} // verus!
