//! The header rewriting rules that glue the two legs of a call together: which header
//! lines are read from a message, and how Via, Contact, Call-ID, From and To are rewritten.

use vstd::prelude::*;

use crate::parsing::{
    extract_via_received_rport, get_call_id, get_contact_header, get_cseq_header,
    get_from_header, get_to_header, get_via_header, header_line, header_value,
    via_received_rport,
};
use crate::sip_defs::{PeerAddr, MAX_UUID_LENGTH};
use crate::text::{
    chars_of, contains, decimal, find, find_from, ip_text, leading_white, lemma_find_some,
    matches_at, push_decimal, push_ip, push_str, starts_with, trailing_white, trim,
};

verus! {

pub open spec fn or_empty(o: Option<Seq<char>>) -> Seq<char> {
    match o {
        Some(s) => s,
        None => Seq::empty(),
    }
}

pub open spec fn via_of(m: Seq<char>) -> Seq<char> {
    or_empty(header_line(m, "Via:"@, "Via: "@))
}

pub open spec fn from_of(m: Seq<char>) -> Seq<char> {
    or_empty(header_line(m, "From:"@, "From: "@))
}

pub open spec fn to_of(m: Seq<char>) -> Seq<char> {
    or_empty(header_line(m, "To:"@, "To: "@))
}

pub open spec fn cseq_of(m: Seq<char>) -> Seq<char> {
    or_empty(header_line(m, "CSeq:"@, "CSeq: "@))
}

pub open spec fn contact_of(m: Seq<char>) -> Seq<char> {
    or_empty(header_line(m, "Contact:"@, "Contact: "@))
}

pub open spec fn call_id_of(m: Seq<char>) -> Seq<char> {
    match header_value(m, "Call-ID:"@) {
        Some(v) => trim(v),
        None => Seq::empty(),
    }
}

/// The header lines of an inbound message that the state machine reuses, each empty where
/// the message lacks it.
pub struct MsgHeaders {
    pub via: String,
    pub from: String,
    pub to: String,
    pub call_id: String,
    pub cseq: String,
    pub contact: String,
}

fn text_or_empty(o: Option<String>) -> (r: String)
    ensures
        r@ == or_empty(
            match o {
                Some(s) => Some(s@),
                None => None,
            },
        ),
{
    match o {
        Some(s) => s,
        None => String::new(),
    }
}

pub fn read_headers(raw: &str) -> (r: MsgHeaders)
    ensures
        r.via@ == via_of(raw@),
        r.from@ == from_of(raw@),
        r.to@ == to_of(raw@),
        r.call_id@ == call_id_of(raw@),
        r.cseq@ == cseq_of(raw@),
        r.contact@ == contact_of(raw@),
{
    MsgHeaders {
        via: text_or_empty(get_via_header(raw)),
        from: text_or_empty(get_from_header(raw)),
        to: text_or_empty(get_to_header(raw)),
        call_id: text_or_empty(get_call_id(raw)),
        cseq: text_or_empty(get_cseq_header(raw)),
        contact: text_or_empty(get_contact_header(raw)),
    }
}

/// `s` without any run of CRLF pairs that ends it.
pub open spec fn strip_crlfs(s: Seq<char>) -> Seq<char>
    decreases s.len(),
{
    if s.len() >= 2 && s[s.len() - 2] == '\r' && s[s.len() - 1] == '\n' {
        strip_crlfs(s.take(s.len() - 2))
    } else {
        s
    }
}

fn strip_crlfs_text(s: &str) -> (r: String)
    ensures
        r@ == strip_crlfs(s@),
{
    let v = chars_of(s);
    let mut i = v.len();
    proof {
        assert(v@.take(i as int) =~= v@);
    }
    while i >= 2 && v[i - 2] == '\r' && v[i - 1] == '\n'
        invariant
            i <= v@.len(),
            v@ == s@,
            strip_crlfs(s@) == strip_crlfs(v@.take(i as int)),
        decreases i,
    {
        proof {
            assert(v@.take(i as int).take(i - 2) =~= v@.take(i - 2));
        }
        i = i - 2;
    }
    String::from_str(s.substring_char(0, i))
}

/// The Via line stored for the A-leg: the inbound Via, with `;received=` and the sender's
/// IP added where an `rport` is present or `received` is missing (unless the header already
/// carries `;received=`), and with `;rport=` and the sender's port added where `rport` came
/// as a bare flag (unless the header already carries `;rport=`).
pub open spec fn a_leg_via(via: Seq<char>, source: PeerAddr) -> Seq<char> {
    let (rec, rp) = via_received_rport(via);
    let v1 = if (rp is Some || rec is None) && !contains(via, ";received="@) {
        strip_crlfs(via) + ";received="@ + ip_text(source.ip) + "\r\n"@
    } else {
        via
    };
    if rp == Some(0u16) && !contains(via, ";rport="@) {
        strip_crlfs(v1) + ";rport="@ + decimal(source.port as nat) + "\r\n"@
    } else {
        v1
    }
}

pub(crate) fn contains_text(s: &str, p: &str) -> (r: bool)
    ensures
        r == contains(s@, p@),
{
    let v = chars_of(s);
    let q = chars_of(p);
    proof {
        assert(v@.skip(0) =~= v@);
    }
    find_from(&v, 0, &q).is_some()
}

pub fn a_leg_via_text(via: &str, source: PeerAddr) -> (r: String)
    ensures
        r@ == a_leg_via(via@, source),
{
    let (rec, rp) = extract_via_received_rport(via);
    let mut v1 = String::from_str(via);
    if (rp.is_some() || rec.is_none()) && !contains_text(via, ";received=") {
        v1 = strip_crlfs_text(via);
        push_str(&mut v1, ";received=");
        push_ip(&mut v1, source.ip);
        push_str(&mut v1, "\r\n");
    }
    let flag = match rp {
        Some(p) => p == 0,
        None => false,
    };
    if flag && !contains_text(via, ";rport=") {
        let mut v2 = strip_crlfs_text(v1.as_str());
        push_str(&mut v2, ";rport=");
        push_decimal(&mut v2, source.port as u128);
        push_str(&mut v2, "\r\n");
        v2
    } else {
        v1
    }
}

/// The URI that a Contact header line gives: what stands between its first `<` and its
/// first `>`, where the one comes before the other; where it has no `<`, the trimmed text
/// after `Contact:`. Otherwise `current` stays.
pub open spec fn contact_uri(ch: Seq<char>, current: Seq<char>) -> Seq<char> {
    match find(ch, seq!['<']) {
        Some(s) => match find(ch, seq!['>']) {
            Some(e) => if s < e {
                ch.subrange(s + 1, e)
            } else {
                current
            },
            None => current,
        },
        None => if starts_with(ch, "Contact:"@) {
            trim(ch.skip("Contact:"@.len() as int))
        } else {
            current
        },
    }
}

pub fn contact_uri_text(ch: &str, current: String) -> (r: String)
    ensures
        r@ == contact_uri(ch@, current@),
{
    let v = chars_of(ch);
    let open_mark = vec!['<'];
    let close_mark = vec!['>'];
    proof {
        assert(v@.skip(0) =~= v@);
        assert(open_mark@ =~= seq!['<']);
        assert(close_mark@ =~= seq!['>']);
    }
    match find_from(&v, 0, &open_mark) {
        Some(s) => match find_from(&v, 0, &close_mark) {
            Some(e) => {
                if s < e {
                    String::from_str(ch.substring_char(s + 1, e))
                } else {
                    current
                }
            },
            None => current,
        },
        None => {
            let key = chars_of("Contact:");
            if matches_at(&v, 0, &key) {
                let n = v.len();
                let lo = leading_white(&v, key.len(), n);
                let hi = trailing_white(&v, lo, n);
                proof {
                    assert(v@.subrange(key@.len() as int, n as int) =~= v@.skip(key@.len() as int));
                }
                String::from_str(ch.substring_char(lo, hi))
            } else {
                current
            }
        },
    }
}

/// The B-leg Call-ID made from an A-leg Call-ID: `b-leg-` and the whole A-leg Call-ID, cut
/// to fewer than `MAX_UUID_LENGTH` characters.
pub open spec fn b_leg_id(a: Seq<char>) -> Seq<char> {
    let b = "b-leg-"@ + a;
    if b.len() >= MAX_UUID_LENGTH {
        b.take(MAX_UUID_LENGTH - 1)
    } else {
        b
    }
}

/// The B-leg Call-ID differs from the A-leg Call-ID it is made from, but where that one has
/// exactly `MAX_UUID_LENGTH - 1` characters.
pub proof fn b_leg_id_differs(a: Seq<char>)
    requires
        a.len() != MAX_UUID_LENGTH - 1,
    ensures
        b_leg_id(a) != a,
{
    reveal_strlit("b-leg-");
    assert(b_leg_id(a).len() != a.len());
}

pub fn b_leg_id_text(a: &str) -> (r: String)
    ensures
        r@ == b_leg_id(a@),
{
    let mut b = String::from_str("b-leg-");
    push_str(&mut b, a);
    let len = b.as_str().unicode_len();
    if len >= MAX_UUID_LENGTH {
        String::from_str(b.as_str().substring_char(0, MAX_UUID_LENGTH - 1))
    } else {
        b
    }
}

/// `s` with every occurrence of `p`, taken from the left, replaced by `r`.
pub open spec fn replace_all(s: Seq<char>, p: Seq<char>, r: Seq<char>) -> Seq<char>
    decreases s.len(),
    via replace_all_decreases
{
    if p.len() == 0 {
        s
    } else {
        match find(s, p) {
            Some(k) => s.take(k) + r + replace_all(s.skip(k + p.len()), p, r),
            None => s,
        }
    }
}

#[via_fn]
proof fn replace_all_decreases(s: Seq<char>, p: Seq<char>, r: Seq<char>) {
    if p.len() > 0 {
        if let Some(k) = find(s, p) {
            lemma_find_some(s, p, k);
        }
    }
}

pub fn replace_text(s: &str, p: &str, r: &str) -> (out: String)
    requires
        p@.len() > 0,
    ensures
        out@ == replace_all(s@, p@, r@),
{
    let v = chars_of(s);
    let q = chars_of(p);
    let n = v.len();
    let mut out = String::new();
    let mut i: usize = 0;
    proof {
        assert(v@.skip(0) =~= v@);
        assert(out@ + replace_all(v@.skip(0), p@, r@) =~= replace_all(s@, p@, r@));
    }
    loop
        invariant_except_break
            replace_all(s@, p@, r@) == out@ + replace_all(v@.skip(i as int), p@, r@),
        invariant
            i <= n,
            n == v@.len(),
            v@ == s@,
            q@ == p@,
            p@.len() > 0,
        ensures
            replace_all(s@, p@, r@) == out@,
        decreases n - i,
    {
        match find_from(&v, i, &q) {
            Some(k) => {
                proof {
                    lemma_find_some(v@.skip(i as int), p@, k - i);
                }
                let next = k + q.len();
                let ghost before = out@;
                push_str(&mut out, s.substring_char(i, k));
                push_str(&mut out, r);
                proof {
                    let t = v@.skip(i as int);
                    assert(t.take(k - i) =~= v@.subrange(i as int, k as int));
                    assert(t.skip(k - i + p@.len()) =~= v@.skip(next as int));
                    assert(out@ + replace_all(v@.skip(next as int), p@, r@) =~= before
                        + replace_all(t, p@, r@));
                }
                i = next;
            },
            None => {
                push_str(&mut out, s.substring_char(i, n));
                proof {
                    assert(v@.skip(i as int) =~= v@.subrange(i as int, n as int));
                }
                break;
            },
        }
    }
    out
}

} // verus!
