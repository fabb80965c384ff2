//! Reading SIP messages: first-line classification, header values, CSeq numbers, SDP
//! bodies, URI user parts and Via parameters.

use vstd::prelude::*;
use vstd::utf8::encode_utf8;

use crate::sip_defs::{MAX_USERNAME_LENGTH, REQUEST_METHOD, SIP_PORT, STATUS_CODE};
use crate::text::{
    chars_of, contains, copy_range, find, find_from, leading_white, lemma_find_some, matches_at,
    parse_decimal, parse_unsigned, same_chars, same_text, starts_with, trailing_white, trim,
    trim_start, word_end, word_len,
};

verus! {

pub open spec fn crlf() -> Seq<char> {
    seq!['\r', '\n']
}

/// The value of header `name` in message `m`: what follows the first literal occurrence of
/// `name`, up to the next CRLF, without leading white space.
pub open spec fn header_value(m: Seq<char>, name: Seq<char>) -> Option<Seq<char>> {
    match find(m, name) {
        None => None,
        Some(st) => {
            let hs = st + name.len();
            match find(m.skip(hs), crlf()) {
                None => None,
                Some(e) => Some(trim_start(m.subrange(hs, hs + e))),
            }
        },
    }
}

/// Where in `m` the value of header `name` stands.
fn header_span(m: &Vec<char>, name: &Vec<char>) -> (r: Option<(usize, usize)>)
    ensures
        match header_value(m@, name@) {
            Some(v) => r matches Some((a, b)) && a <= b <= m@.len() && m@.subrange(
                a as int,
                b as int,
            ) == v,
            None => r is None,
        },
{
    proof {
        assert(m@.skip(0) =~= m@);
    }
    let st = match find_from(m, 0, name) {
        Some(st) => st,
        None => {
            return None;
        },
    };
    proof {
        lemma_find_some(m@, name@, st as int);
    }
    let total = m.len();
    assert(st + name@.len() <= total);
    let hs = st + name.len();
    let line_end = vec!['\r', '\n'];
    proof {
        assert(line_end@ =~= crlf());
    }
    let e = match find_from(m, hs, &line_end) {
        Some(e) => e,
        None => {
            return None;
        },
    };
    proof {
        lemma_find_some(m@.skip(hs as int), crlf(), e - hs);
    }
    let lw = leading_white(m, hs, e);
    Some((lw, e))
}

/// The value of the header named `header_name` (its colon included) in `message_str`.
pub fn get_header_value<'a>(message_str: &'a str, header_name: &str) -> (r: Option<&'a str>)
    ensures
        match header_value(message_str@, header_name@) {
            Some(v) => r matches Some(s) && s@ == v,
            None => r is None,
        },
{
    let m = chars_of(message_str);
    let n = chars_of(header_name);
    match header_span(&m, &n) {
        Some((a, b)) => Some(message_str.substring_char(a, b)),
        None => None,
    }
}

/// The header value behind `name`, written after `label` as a whole header line.
pub open spec fn header_line(m: Seq<char>, name: Seq<char>, label: Seq<char>) -> Option<
    Seq<char>,
> {
    match header_value(m, name) {
        Some(v) => Some(label + v),
        None => None,
    }
}

fn labelled_header(message_str: &str, name: &str, label: &str) -> (r: Option<String>)
    ensures
        match header_line(message_str@, name@, label@) {
            Some(v) => r matches Some(s) && s@ == v,
            None => r is None,
        },
{
    match get_header_value(message_str, name) {
        Some(v) => {
            let mut s = String::from_str(label);
            s.append(v);
            Some(s)
        },
        None => None,
    }
}

/// The Call-ID of a message, trimmed.
pub fn get_call_id(message_str: &str) -> (r: Option<String>)
    ensures
        match header_value(message_str@, "Call-ID:"@) {
            Some(v) => r matches Some(s) && s@ == trim(v),
            None => r is None,
        },
{
    let m = chars_of(message_str);
    let name = chars_of("Call-ID:");
    match header_span(&m, &name) {
        Some((a, b)) => {
            let lo = leading_white(&m, a, b);
            let hi = trailing_white(&m, lo, b);
            Some(String::from_str(message_str.substring_char(lo, hi)))
        },
        None => None,
    }
}

pub fn get_from_header(message_str: &str) -> (r: Option<String>)
    ensures
        match header_line(message_str@, "From:"@, "From: "@) {
            Some(v) => r matches Some(s) && s@ == v,
            None => r is None,
        },
{
    labelled_header(message_str, "From:", "From: ")
}

pub fn get_to_header(message_str: &str) -> (r: Option<String>)
    ensures
        match header_line(message_str@, "To:"@, "To: "@) {
            Some(v) => r matches Some(s) && s@ == v,
            None => r is None,
        },
{
    labelled_header(message_str, "To:", "To: ")
}

pub fn get_via_header(message_str: &str) -> (r: Option<String>)
    ensures
        match header_line(message_str@, "Via:"@, "Via: "@) {
            Some(v) => r matches Some(s) && s@ == v,
            None => r is None,
        },
{
    labelled_header(message_str, "Via:", "Via: ")
}

pub fn get_cseq_header(message_str: &str) -> (r: Option<String>)
    ensures
        match header_line(message_str@, "CSeq:"@, "CSeq: "@) {
            Some(v) => r matches Some(s) && s@ == v,
            None => r is None,
        },
{
    labelled_header(message_str, "CSeq:", "CSeq: ")
}

pub fn get_contact_header(message_str: &str) -> (r: Option<String>)
    ensures
        match header_line(message_str@, "Contact:"@, "Contact: "@) {
            Some(v) => r matches Some(s) && s@ == v,
            None => r is None,
        },
{
    labelled_header(message_str, "Contact:", "Contact: ")
}

/// The Max-Forwards count, where it is a decimal number that fits in a `u32`.
pub open spec fn max_forwards_of(m: Seq<char>) -> Option<nat> {
    match header_value(m, "Max-Forwards:"@) {
        Some(v) => parse_unsigned(trim(v), u32::MAX as nat),
        None => None,
    }
}

pub fn get_max_forwards(message_str: &str) -> (r: Option<u32>)
    ensures
        match max_forwards_of(message_str@) {
            Some(v) => r == Some(v as u32),
            None => r is None,
        },
{
    let m = chars_of(message_str);
    let name = chars_of("Max-Forwards:");
    match header_span(&m, &name) {
        Some((a, b)) => {
            let lo = leading_white(&m, a, b);
            let hi = trailing_white(&m, lo, b);
            match parse_decimal(&m, lo, hi, u32::MAX as u64) {
                Some(v) => Some(v as u32),
                None => None,
            }
        },
        None => None,
    }
}

pub open spec fn blank_line() -> Seq<char> {
    seq!['\r', '\n', '\r', '\n']
}

/// The SDP body of a message: what follows the first blank line, where a Content-Type
/// header names `application/sdp`.
pub open spec fn sdp_body_of(m: Seq<char>) -> Option<Seq<char>> {
    match header_value(m, "Content-Type:"@) {
        Some(ct) => if contains(trim(ct), "application/sdp"@) {
            match find(m, blank_line()) {
                Some(k) => Some(m.skip(k + 4)),
                None => None,
            }
        } else {
            None
        },
        None => None,
    }
}

/// The characters of `s[from..to]` without white space at either end.
fn trimmed_copy(s: &Vec<char>, from: usize, to: usize) -> (r: Vec<char>)
    requires
        from <= to <= s@.len(),
    ensures
        r@ == trim(s@.subrange(from as int, to as int)),
{
    let lo = leading_white(s, from, to);
    let hi = trailing_white(s, lo, to);
    copy_range(s, lo, hi)
}

pub fn get_sdp_body(message_str: &str) -> (r: Option<&str>)
    ensures
        match sdp_body_of(message_str@) {
            Some(b) => r matches Some(s) && s@ == b,
            None => r is None,
        },
{
    let m = chars_of(message_str);
    let name = chars_of("Content-Type:");
    let (a, b) = match header_span(&m, &name) {
        Some(span) => span,
        None => {
            return None;
        },
    };
    let ct = trimmed_copy(&m, a, b);
    let sdp = chars_of("application/sdp");
    proof {
        assert(ct@.skip(0) =~= ct@);
        assert(m@.skip(0) =~= m@);
    }
    if find_from(&ct, 0, &sdp).is_none() {
        return None;
    }
    let blank = vec!['\r', '\n', '\r', '\n'];
    proof {
        assert(blank@ =~= blank_line());
    }
    match find_from(&m, 0, &blank) {
        Some(k) => {
            proof {
                lemma_find_some(m@, blank_line(), k as int);
            }
            let total = m.len();
            assert(k + 4 <= total);
            Some(message_str.substring_char(k + 4, m.len()))
        },
        None => None,
    }
}

/// The second whitespace-delimited word of `s`.
pub open spec fn second_word(s: Seq<char>) -> Option<Seq<char>> {
    let t1 = trim_start(s);
    if t1.len() == 0 {
        None
    } else {
        let t2 = trim_start(t1.skip(word_len(t1) as int));
        if t2.len() == 0 {
            None
        } else {
            Some(t2.take(word_len(t2) as int))
        }
    }
}

/// The sequence number of a CSeq header: its second word, read as a `u32`.
pub open spec fn cseq_number_of(h: Seq<char>) -> Option<nat> {
    match second_word(h) {
        Some(w) => parse_unsigned(w, u32::MAX as nat),
        None => None,
    }
}

pub fn extract_cseq_number(cseq_header: &str) -> (r: Option<u32>)
    ensures
        match cseq_number_of(cseq_header@) {
            Some(v) => r == Some(v as u32),
            None => r is None,
        },
{
    let h = chars_of(cseq_header);
    let n = h.len();
    proof {
        assert(h@.subrange(0, n as int) =~= h@);
    }
    let a = leading_white(&h, 0, n);
    if a == n {
        return None;
    }
    let b = word_end(&h, a, n);
    proof {
        assert(h@.subrange(a as int, n as int).skip(b - a) =~= h@.subrange(b as int, n as int));
    }
    let c = leading_white(&h, b, n);
    if c == n {
        return None;
    }
    let d = word_end(&h, c, n);
    proof {
        assert(h@.subrange(c as int, n as int).take(d - c) =~= h@.subrange(c as int, d as int));
    }
    match parse_decimal(&h, c, d, u32::MAX as u64) {
        Some(v) => Some(v as u32),
        None => None,
    }
}

/// The upper-case form of `s`, as Rust's `str::to_uppercase` gives it.
pub uninterp spec fn upper_of(s: Seq<char>) -> Seq<char>;

/// Relies on `str::to_uppercase`: the result depends on the characters alone.
#[verifier::external_body]
fn uppercase(s: &str) -> (r: String)
    ensures
        r@ == upper_of(s@),
{
    s.to_uppercase()
}

/// The request methods this server accepts, in upper case.
pub open spec fn supported_method(u: Seq<char>) -> bool {
    u == "INVITE"@ || u == "ACK"@ || u == "BYE"@ || u == "CANCEL"@ || u == "REGISTER"@ || u
        == "OPTIONS"@
}

/// Whether `upper`, a method token in upper case, is one this server accepts.
pub fn is_supported_method(upper: &str) -> (r: bool)
    ensures
        r == supported_method(upper@),
{
    same_text(upper, "INVITE") || same_text(upper, "ACK") || same_text(upper, "BYE")
        || same_text(upper, "CANCEL") || same_text(upper, "REGISTER") || same_text(
        upper,
        "OPTIONS",
    )
}

/// The first token of a first line: what stands before its first space.
pub open spec fn first_token(l: Seq<char>) -> Option<Seq<char>> {
    match find(l, seq![' ']) {
        Some(sp) => Some(l.take(sp)),
        None => None,
    }
}

/// The second token of a first line: what follows its first space, up to the next.
pub open spec fn second_token(l: Seq<char>) -> Option<Seq<char>> {
    match find(l, seq![' ']) {
        Some(sp) => {
            let rest = l.skip(sp + 1);
            match find(rest, seq![' ']) {
                Some(k) => Some(rest.take(k)),
                None => Some(rest),
            }
        },
        None => None,
    }
}

/// What a first line is: a response, with its numeric status code as written, or a request
/// for one of the supported methods, with the method as written.
pub open spec fn first_line_kind(l: Seq<char>) -> Option<(i32, Seq<char>)> {
    match (first_token(l), second_token(l)) {
        (Some(first), Some(second)) => if starts_with(first, "SIP/2.0"@) {
            if parse_unsigned(second, u32::MAX as nat) is Some {
                Some((STATUS_CODE, second))
            } else {
                None
            }
        } else if supported_method(upper_of(first)) {
            Some((REQUEST_METHOD, first))
        } else {
            None
        },
        _ => None,
    }
}

pub fn parse_first_line(first_line: &str) -> (r: Option<(i32, String)>)
    ensures
        match first_line_kind(first_line@) {
            Some((k, t)) => r matches Some((rk, rt)) && rk == k && rt@ == t,
            None => r is None,
        },
{
    let l = chars_of(first_line);
    let space = vec![' '];
    proof {
        assert(l@.skip(0) =~= l@);
        assert(space@ =~= seq![' ']);
    }
    let sp = match find_from(&l, 0, &space) {
        Some(sp) => sp,
        None => {
            return None;
        },
    };
    proof {
        lemma_find_some(l@, space@, sp as int);
    }
    let n = l.len();
    let code_end = match find_from(&l, sp + 1, &space) {
        Some(k) => {
            proof {
                lemma_find_some(l@.skip(sp + 1), space@, k - (sp + 1));
            }
            k
        },
        None => n,
    };
    proof {
        assert(l@.skip(sp + 1).take(code_end - (sp + 1)) =~= l@.subrange(sp + 1, code_end as int));
        assert(l@.skip(sp + 1) =~= l@.subrange(sp + 1, n as int));
    }
    let first = copy_range(&l, 0, sp);
    let sip = chars_of("SIP/2.0");
    proof {
        assert(first@.skip(0) =~= first@);
        assert(l@.take(sp as int) =~= first@);
    }
    proof {
        assert(first_token(first_line@) == Some(first@));
        assert(second_token(first_line@) == Some(l@.subrange(sp + 1, code_end as int)));
    }
    if matches_at(&first, 0, &sip) {
        match parse_decimal(&l, sp + 1, code_end, u32::MAX as u64) {
            Some(_) => Some((STATUS_CODE, String::from_str(first_line.substring_char(sp + 1, code_end)))),
            None => None,
        }
    } else {
        let token = first_line.substring_char(0, sp);
        let upper = uppercase(token);
        if is_supported_method(upper.as_str()) {
            Some((REQUEST_METHOD, String::from_str(token)))
        } else {
            None
        }
    }
}

/// The user part of the first `<...>`-bracketed URI in a header: after the scheme's `:`,
/// up to the `@`. It is refused when empty or when its UTF-8 form is not shorter than
/// `MAX_USERNAME_LENGTH` bytes.
pub open spec fn username_of(h: Seq<char>) -> Option<Seq<char>> {
    match find(h, seq!['<']) {
        None => None,
        Some(us) => match find(h.skip(us), seq!['>']) {
            None => None,
            Some(ue) => {
                let u = user_part(h.subrange(us + 1, us + ue));
                if u.len() > 0 && encode_utf8(u).len() < MAX_USERNAME_LENGTH {
                    Some(u)
                } else {
                    None
                }
            },
        },
    }
}

/// The user part of a URI: after the first `:`, or from the start where there is none, up
/// to the next `@`, or to the end where there is none.
pub open spec fn user_part(uri: Seq<char>) -> Seq<char> {
    let ups = match find(uri, seq![':']) {
        Some(i) => i + 1,
        None => 0,
    };
    let upe = match find(uri.skip(ups), seq!['@']) {
        Some(i) => ups + i,
        None => uri.len() as int,
    };
    uri.subrange(ups, upe)
}

fn user_span(uri: &Vec<char>) -> (r: (usize, usize))
    ensures
        r.0 <= r.1 <= uri@.len(),
        uri@.subrange(r.0 as int, r.1 as int) == user_part(uri@),
{
    let colon = vec![':'];
    let at_sign = vec!['@'];
    proof {
        assert(uri@.skip(0) =~= uri@);
        assert(colon@ =~= seq![':']);
        assert(at_sign@ =~= seq!['@']);
    }
    let total = uri.len();
    let ups = match find_from(uri, 0, &colon) {
        Some(i) => {
            proof {
                lemma_find_some(uri@, colon@, i as int);
            }
            assert(i < total);
            i + 1
        },
        None => 0,
    };
    let upe = match find_from(uri, ups, &at_sign) {
        Some(i) => {
            proof {
                lemma_find_some(uri@.skip(ups as int), at_sign@, i - ups);
            }
            i
        },
        None => uri.len(),
    };
    (ups, upe)
}

pub fn extract_username_from_uri(uri_header: &str) -> (r: Option<String>)
    ensures
        match username_of(uri_header@) {
            Some(u) => r matches Some(s) && s@ == u,
            None => r is None,
        },
{
    let h = chars_of(uri_header);
    let open_mark = vec!['<'];
    let close_mark = vec!['>'];
    proof {
        assert(h@.skip(0) =~= h@);
        assert(open_mark@ =~= seq!['<']);
        assert(close_mark@ =~= seq!['>']);
    }
    let us = match find_from(&h, 0, &open_mark) {
        Some(i) => i,
        None => {
            return None;
        },
    };
    proof {
        lemma_find_some(h@, open_mark@, us as int);
        assert(h@.subrange(us as int, us + 1)[0] == '<');
    }
    let ue = match find_from(&h, us, &close_mark) {
        Some(i) => i,
        None => {
            return None;
        },
    };
    proof {
        lemma_find_some(h@.skip(us as int), close_mark@, ue - us);
        if ue == us {
            assert(h@.skip(us as int).subrange(0, 1)[0] == '>');
        }
    }
    let uri = copy_range(&h, us + 1, ue);
    let (ups, upe) = user_span(&uri);
    let name = uri_header.substring_char(us + 1 + ups, us + 1 + upe);
    proof {
        assert(name@ =~= uri@.subrange(ups as int, upe as int));
        assert(uri@ == uri_header@.subrange(us + 1, us + (ue - us)));
        assert(name@ == user_part(uri@));
        assert(find(uri_header@, seq!['<']) == Some(us as int));
        assert(find(uri_header@.skip(us as int), seq!['>']) == Some(ue - us));
    }
    let byte_len = name.as_bytes().len();
    if !name.is_empty() && byte_len < MAX_USERNAME_LENGTH {
        Some(String::from_str(name))
    } else {
        None
    }
}

/// Whether `c` is alphanumeric, as Rust's `char::is_alphanumeric` says.
pub uninterp spec fn alphanumeric(c: char) -> bool;

/// Relies on `char::is_alphanumeric`: the result depends on the character alone.
#[verifier::external_body]
fn is_alphanumeric(c: char) -> (r: bool)
    ensures
        r == alphanumeric(c),
{
    c.is_alphanumeric()
}

pub open spec fn host_char(c: char) -> bool {
    alphanumeric(c) || c == '.' || c == '-'
}

/// The first position at or after `from` whose character is (`want`) or is not (`!want`)
/// a host character.
pub open spec fn scan_host(v: Seq<char>, from: int, want: bool) -> Option<int>
    decreases v.len() - from,
{
    if from < 0 || from >= v.len() {
        None
    } else if host_char(v[from]) == want {
        Some(from)
    } else {
        scan_host(v, from + 1, want)
    }
}

/// The first run of host characters of a Via header that is followed by another character.
/// A port is never part of it, since `:` is no host character; the port is `SIP_PORT`.
pub open spec fn via_host_port(v: Seq<char>) -> Option<(Seq<char>, u16)> {
    match scan_host(v, 0, true) {
        None => None,
        Some(hs) => match scan_host(v, hs, false) {
            None => None,
            Some(he) => Some((v.subrange(hs, he), SIP_PORT)),
        },
    }
}

fn scan_host_from(v: &Vec<char>, from: usize, want: bool) -> (r: Option<usize>)
    requires
        from <= v@.len(),
    ensures
        match scan_host(v@, from as int, want) {
            Some(i) => r == Some(i as usize) && from <= i < v@.len(),
            None => r is None,
        },
{
    let mut i = from;
    while i < v.len()
        invariant
            from <= i <= v@.len(),
            scan_host(v@, from as int, want) == scan_host(v@, i as int, want),
        decreases v@.len() - i,
    {
        let c = v[i];
        let host = is_alphanumeric(c) || c == '.' || c == '-';
        if host == want {
            return Some(i);
        }
        i = i + 1;
    }
    None
}

pub fn extract_via_host_port(via_header: &str) -> (r: Option<(String, u16)>)
    ensures
        match via_host_port(via_header@) {
            Some((h, p)) => r matches Some((rh, rp)) && rh@ == h && rp == p,
            None => r is None,
        },
{
    let v = chars_of(via_header);
    let hs = match scan_host_from(&v, 0, true) {
        Some(i) => i,
        None => {
            return None;
        },
    };
    let he = match scan_host_from(&v, hs, false) {
        Some(i) => i,
        None => {
            return None;
        },
    };
    Some((String::from_str(via_header.substring_char(hs, he)), SIP_PORT))
}

/// What one `;`-delimited Via parameter does to the `received` and `rport` found so far.
pub open spec fn apply_via_param(acc: (Option<Seq<char>>, Option<u16>), p: Seq<char>) -> (
    Option<Seq<char>>,
    Option<u16>,
) {
    let t = trim(p);
    if starts_with(t, "received="@) {
        (Some(t.skip("received="@.len() as int)), acc.1)
    } else if starts_with(t, "rport="@) {
        (
            acc.0,
            match parse_unsigned(t.skip("rport="@.len() as int), u16::MAX as nat) {
                Some(n) => Some(n as u16),
                None => None,
            },
        )
    } else if t == "rport"@ {
        (acc.0, Some(0u16))
    } else {
        acc
    }
}

/// The Via parameters from position `start` on, applied in order to `acc`.
pub open spec fn via_params_from(v: Seq<char>, start: int, acc: (Option<Seq<char>>, Option<u16>)) -> (
    Option<Seq<char>>,
    Option<u16>,
)
    decreases v.len() - start,
    via via_params_from_decreases
{
    if start < 0 || start > v.len() {
        acc
    } else {
        let end = match find(v.skip(start), seq![';']) {
            Some(k) => start + k,
            None => v.len() as int,
        };
        let next = apply_via_param(acc, v.subrange(start, end));
        if end >= v.len() {
            next
        } else {
            via_params_from(v, end + 1, next)
        }
    }
}

#[via_fn]
proof fn via_params_from_decreases(
    v: Seq<char>,
    start: int,
    acc: (Option<Seq<char>>, Option<u16>),
) {
    if 0 <= start <= v.len() {
        if let Some(k) = find(v.skip(start), seq![';']) {
            lemma_find_some(v.skip(start), seq![';'], k);
        }
    }
}

/// The `received=` value and the `rport` of a Via header: the last of each wins, a bare
/// `rport` flag gives 0, and an `rport=` whose value is no `u16` clears it.
pub open spec fn via_received_rport(v: Seq<char>) -> (Option<Seq<char>>, Option<u16>) {
    via_params_from(v, 0, (None, None))
}

pub fn extract_via_received_rport(via_header: &str) -> (r: (Option<String>, Option<u16>))
    ensures
        ({
            let (rec, rp) = via_received_rport(via_header@);
            &&& match rec {
                Some(x) => r.0 matches Some(s) && s@ == x,
                None => r.0 is None,
            }
            &&& r.1 == rp
        }),
{
    let v = chars_of(via_header);
    let n = v.len();
    let semi = vec![';'];
    let received_key = chars_of("received=");
    let rport_key = chars_of("rport=");
    let rport_flag = chars_of("rport");
    proof {
        assert(semi@ =~= seq![';']);
    }
    let mut received: Option<String> = None;
    let mut rport: Option<u16> = None;
    let ghost mut acc: (Option<Seq<char>>, Option<u16>) = (None, None);
    let mut start: usize = 0;
    loop
        invariant
            start <= n,
            n == v@.len(),
            v@ == via_header@,
            semi@ == seq![';'],
            received_key@ == "received="@,
            rport_key@ == "rport="@,
            rport_flag@ == "rport"@,
            via_received_rport(via_header@) == via_params_from(v@, start as int, acc),
            match acc.0 {
                Some(x) => received matches Some(s) && s@ == x,
                None => received is None,
            },
            rport == acc.1,
        ensures
            via_received_rport(via_header@) == acc,
            match acc.0 {
                Some(x) => received matches Some(s) && s@ == x,
                None => received is None,
            },
            rport == acc.1,
        decreases n - start,
    {
        let end = match find_from(&v, start, &semi) {
            Some(k) => {
                proof {
                    lemma_find_some(v@.skip(start as int), semi@, k - start);
                }
                k
            },
            None => n,
        };
        let lo = leading_white(&v, start, end);
        let hi = trailing_white(&v, lo, end);
        let t = copy_range(&v, lo, hi);
        proof {
            assert(t@ == trim(v@.subrange(start as int, end as int)));
            assert(t@.skip(0) =~= t@);
        }
        if matches_at(&t, 0, &received_key) {
            let from = lo + received_key.len();
            received = Some(String::from_str(via_header.substring_char(from, hi)));
            proof {
                assert(v@.subrange(from as int, hi as int) =~= t@.skip(received_key@.len() as int));
            }
        } else if matches_at(&t, 0, &rport_key) {
            let from = rport_key.len();
            proof {
                assert(t@.subrange(from as int, t@.len() as int) =~= t@.skip(from as int));
            }
            rport = match parse_decimal(&t, from, t.len(), u16::MAX as u64) {
                Some(x) => Some(x as u16),
                None => None,
            };
        } else if same_chars(&t, &rport_flag) {
            rport = Some(0);
        }
        let ghost before = acc;
        proof {
            acc = apply_via_param(acc, v@.subrange(start as int, end as int));
            assert(via_params_from(v@, start as int, before) == if end >= n {
                acc
            } else {
                via_params_from(v@, end + 1, acc)
            });
            assert(match acc.0 {
                Some(x) => received matches Some(s) && s@ == x,
                None => received is None,
            });
            assert(rport == acc.1);
        }
        if end >= n {
            break;
        }
        start = end + 1;
    }
    (received, rport)
}

/// A request's first line yields its method token exactly as written, followed in the
/// line by a space; a response's yields its status code exactly as written, numeric.
pub proof fn first_line_keeps_tokens(l: Seq<char>)
    ensures
        first_line_kind(l) matches Some((k, t)) ==> {
            &&& k == REQUEST_METHOD ==> starts_with(l, t + seq![' ']) && supported_method(upper_of(t))
            &&& k == STATUS_CODE ==> second_token(l) == Some(t) && parse_unsigned(t, u32::MAX as nat) is Some
            &&& k == REQUEST_METHOD || k == STATUS_CODE
        },
{
    if let Some(sp) = find(l, seq![' ']) {
        lemma_find_some(l, seq![' '], sp);
        assert(l.take(sp + 1) =~= l.take(sp) + seq![' ']);
    }
}

/// The first line of a message: up to its first `\n`, without the `\r` before it; the
/// whole text where it has no `\n`.
pub open spec fn first_line(raw: Seq<char>) -> Seq<char> {
    match find(raw, seq!['\n']) {
        Some(k) => if k > 0 && raw[k - 1] == '\r' {
            raw.take(k - 1)
        } else {
            raw.take(k)
        },
        None => raw,
    }
}

pub fn first_line_of(message_str: &str) -> (r: String)
    ensures
        r@ == first_line(message_str@),
{
    let v = chars_of(message_str);
    let nl = vec!['\n'];
    proof {
        assert(v@.skip(0) =~= v@);
        assert(nl@ =~= seq!['\n']);
    }
    match find_from(&v, 0, &nl) {
        Some(k) => {
            proof {
                lemma_find_some(v@, nl@, k as int);
            }
            if k > 0 && v[k - 1] == '\r' {
                String::from_str(message_str.substring_char(0, k - 1))
            } else {
                String::from_str(message_str.substring_char(0, k))
            }
        },
        None => String::from_str(message_str),
    }
}

} // verus!
