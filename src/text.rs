//! Character-level helpers: searching, trimming, decimal numbers and string building.

use vstd::prelude::*;
use vstd::std_specs::iter::IteratorSpec;

verus! {

/// The characters of `s`, in order.
pub fn chars_of(s: &str) -> (r: Vec<char>)
    ensures
        r@ == s@,
{
    broadcast use vstd::string::group_string_axioms;

    let n = s.unicode_len();
    let mut out: Vec<char> = Vec::with_capacity(n);
    let mut it = s.chars();
    let mut i: usize = 0;
    while i < n
        invariant
            n == s@.len(),
            i <= n,
            out@.len() == i,
            s@ == out@ + it.remaining(),
            it.obeys_prophetic_iter_laws(),
        decreases n - i,
    {
        match it.next() {
            Some(c) => {
                out.push(c);
            },
            None => {
                // `n - i` characters remain, so the iterator is not done.
                assert(false);
            },
        }
        i = i + 1;
    }
    assert(out@ =~= s@);
    out
}

/// Unicode White_Space, the set that `char::is_whitespace` tests.
pub open spec fn is_white_space(c: char) -> bool {
    let u = c as u32;
    (0x09 <= u && u <= 0x0d) || u == 0x20 || u == 0x85 || u == 0xa0 || u == 0x1680 || (0x2000
        <= u && u <= 0x200a) || u == 0x2028 || u == 0x2029 || u == 0x202f || u == 0x205f || u
        == 0x3000
}

pub fn white_space(c: char) -> (r: bool)
    ensures
        r == is_white_space(c),
{
    let u = c as u32;
    (0x09 <= u && u <= 0x0d) || u == 0x20 || u == 0x85 || u == 0xa0 || u == 0x1680 || (0x2000
        <= u && u <= 0x200a) || u == 0x2028 || u == 0x2029 || u == 0x202f || u == 0x205f || u
        == 0x3000
}

/// `p` stands in `s` at position `i`.
pub open spec fn occurs_at(s: Seq<char>, p: Seq<char>, i: int) -> bool {
    0 <= i && i + p.len() <= s.len() && s.subrange(i, i + p.len()) == p
}

/// `i` is the first position at which `p` stands in `s`.
pub open spec fn first_at(s: Seq<char>, p: Seq<char>, i: int) -> bool {
    &&& occurs_at(s, p, i)
    &&& forall|j: int| 0 <= j < i ==> !#[trigger] occurs_at(s, p, j)
}

/// The position of the first occurrence of `p` in `s`.
pub open spec fn find(s: Seq<char>, p: Seq<char>) -> Option<int> {
    if exists|i: int| first_at(s, p, i) {
        Some(choose|i: int| first_at(s, p, i))
    } else {
        None
    }
}

pub open spec fn contains(s: Seq<char>, p: Seq<char>) -> bool {
    find(s, p) is Some
}

pub open spec fn starts_with(s: Seq<char>, p: Seq<char>) -> bool {
    p.len() <= s.len() && s.take(p.len() as int) == p
}

pub proof fn lemma_first_unique(s: Seq<char>, p: Seq<char>, i: int)
    requires
        first_at(s, p, i),
    ensures
        find(s, p) == Some(i),
{
    let k = choose|k: int| first_at(s, p, k);
    if k < i {
        assert(!occurs_at(s, p, k));
    } else if i < k {
        assert(!occurs_at(s, p, i));
    }
}

pub proof fn lemma_never(s: Seq<char>, p: Seq<char>)
    requires
        forall|j: int| 0 <= j ==> !#[trigger] occurs_at(s, p, j),
    ensures
        find(s, p) is None,
{
}

proof fn lemma_occurs_skip(s: Seq<char>, p: Seq<char>, st: int, k: int)
    requires
        0 <= st <= s.len(),
        0 <= k,
    ensures
        occurs_at(s.skip(st), p, k) == occurs_at(s, p, st + k),
{
    if k + p.len() <= s.len() - st {
        assert(s.skip(st).subrange(k, k + p.len()) =~= s.subrange(st + k, st + k + p.len()));
    }
}

/// The first position at or after `start` where `p` stands in `s`.
pub fn find_from(s: &Vec<char>, start: usize, p: &Vec<char>) -> (r: Option<usize>)
    requires
        start <= s@.len(),
    ensures
        match find(s@.skip(start as int), p@) {
            Some(k) => r matches Some(i) && i == start + k,
            None => r is None,
        },
{
    let ghost t = s@.skip(start as int);
    let n = s.len();
    let mut i: usize = start;
    while p.len() <= n - i
        invariant
            start <= i <= n,
            n == s@.len(),
            t == s@.skip(start as int),
            forall|j: int| 0 <= j < i - start ==> !#[trigger] occurs_at(t, p@, j),
        decreases n - i,
    {
        let hit = matches_at(s, i, p);
        proof {
            lemma_occurs_skip(s@, p@, start as int, i - start);
            lemma_occurs_starts(s@, p@, i as int);
        }
        if hit {
            proof {
                lemma_first_unique(t, p@, i - start);
            }
            return Some(i);
        }
        proof {
            if i == n {
                assert(s@.skip(i as int).take(0) =~= p@);
            }
        }
        i = i + 1;
    }
    proof {
        assert forall|j: int| 0 <= j implies !#[trigger] occurs_at(t, p@, j) by {
            if j >= i - start {
                lemma_occurs_skip(s@, p@, start as int, j);
            }
        }
        lemma_never(t, p@);
    }
    None
}

proof fn lemma_occurs_starts(s: Seq<char>, p: Seq<char>, i: int)
    requires
        0 <= i <= s.len(),
    ensures
        occurs_at(s, p, i) == starts_with(s.skip(i), p),
{
    if i + p.len() <= s.len() {
        assert(s.skip(i).take(p.len() as int) =~= s.subrange(i, i + p.len()));
    }
}

/// `s` without the white space that leads it.
pub open spec fn trim_start(s: Seq<char>) -> Seq<char>
    decreases s.len(),
{
    if s.len() > 0 && is_white_space(s[0]) {
        trim_start(s.drop_first())
    } else {
        s
    }
}

/// `s` without the white space that ends it.
pub open spec fn trim_end(s: Seq<char>) -> Seq<char>
    decreases s.len(),
{
    if s.len() > 0 && is_white_space(s.last()) {
        trim_end(s.drop_last())
    } else {
        s
    }
}

/// `s` without white space at either end.
pub open spec fn trim(s: Seq<char>) -> Seq<char> {
    trim_end(trim_start(s))
}

/// The number of white space characters that lead `s[from..to]`.
pub fn leading_white(s: &Vec<char>, from: usize, to: usize) -> (r: usize)
    requires
        from <= to <= s@.len(),
    ensures
        from <= r <= to,
        trim_start(s@.subrange(from as int, to as int)) == s@.subrange(r as int, to as int),
{
    let mut i: usize = from;
    while i < to && white_space(s[i])
        invariant
            from <= i <= to,
            to <= s@.len(),
            trim_start(s@.subrange(from as int, to as int)) == trim_start(
                s@.subrange(i as int, to as int),
            ),
        decreases to - i,
    {
        proof {
            assert(s@.subrange(i as int, to as int).drop_first() =~= s@.subrange(i + 1, to as int));
        }
        i = i + 1;
    }
    i
}

/// The end of `s[from..to]` once the white space that ends it is gone.
pub fn trailing_white(s: &Vec<char>, from: usize, to: usize) -> (r: usize)
    requires
        from <= to <= s@.len(),
    ensures
        from <= r <= to,
        trim_end(s@.subrange(from as int, to as int)) == s@.subrange(from as int, r as int),
{
    let mut i: usize = to;
    while i > from && white_space(s[i - 1])
        invariant
            from <= i <= to,
            to <= s@.len(),
            trim_end(s@.subrange(from as int, to as int)) == trim_end(
                s@.subrange(from as int, i as int),
            ),
        decreases i - from,
    {
        proof {
            assert(s@.subrange(from as int, i as int).drop_last() =~= s@.subrange(from as int, i - 1));
        }
        i = i - 1;
    }
    i
}

/// Whether `p` begins `s` at position `at`.
pub fn matches_at(s: &Vec<char>, at: usize, p: &Vec<char>) -> (r: bool)
    requires
        at <= s@.len(),
    ensures
        r == starts_with(s@.skip(at as int), p@),
{
    let n = s.len();
    if p.len() > n - at {
        return false;
    }
    let mut m: usize = 0;
    while m < p.len()
        invariant
            n == s@.len(),
            at + p@.len() <= s@.len(),
            m <= p@.len(),
            s@.subrange(at as int, at + m) == p@.take(m as int),
        decreases p@.len() - m,
    {
        if s[at + m] != p[m] {
            proof {
                assert(s@.skip(at as int).take(p@.len() as int)[m as int] != p@[m as int]);
            }
            return false;
        }
        proof {
            assert(s@.subrange(at as int, at + m + 1) =~= s@.subrange(at as int, at + m).push(s@[at + m]));
            assert(p@.take(m + 1) =~= p@.take(m as int).push(p@[m as int]));
        }
        m = m + 1;
    }
    proof {
        assert(s@.skip(at as int).take(p@.len() as int) =~= s@.subrange(at as int, at + m));
        assert(p@.take(m as int) =~= p@);
    }
    true
}

pub open spec fn is_digit(c: char) -> bool {
    '0' <= c && c <= '9'
}

pub open spec fn digit_value(c: char) -> nat {
    ((c as u32) - 48) as nat
}

/// The number that the decimal digits `s` write.
pub open spec fn digits_value(s: Seq<char>) -> nat
    decreases s.len(),
{
    if s.len() == 0 {
        0
    } else {
        digits_value(s.drop_last()) * 10 + digit_value(s.last())
    }
}

pub open spec fn all_digits(s: Seq<char>) -> bool {
    forall|i: int| 0 <= i < s.len() ==> is_digit(#[trigger] s[i])
}

/// The value of `s` read as an unsigned decimal number no greater than `max`, as Rust's
/// `str::parse` reads one: an optional `+`, then at least one digit, nothing else.
pub open spec fn parse_unsigned(s: Seq<char>, max: nat) -> Option<nat> {
    let d = if s.len() > 0 && s[0] == '+' {
        s.drop_first()
    } else {
        s
    };
    if d.len() > 0 && all_digits(d) && digits_value(d) <= max {
        Some(digits_value(d))
    } else {
        None
    }
}

proof fn lemma_digits_grow(t: Seq<char>, c: char)
    requires
        is_digit(c),
    ensures
        digits_value(t.push(c)) == digits_value(t) * 10 + digit_value(c),
{
    assert(t.push(c).drop_last() =~= t);
}

/// Reads `s[from..to]` as an unsigned decimal number no greater than `max`.
pub fn parse_decimal(s: &Vec<char>, from: usize, to: usize, max: u64) -> (r: Option<u64>)
    requires
        from <= to <= s@.len(),
        max <= u32::MAX,
    ensures
        match parse_unsigned(s@.subrange(from as int, to as int), max as nat) {
            Some(v) => r == Some(v as u64),
            None => r is None,
        },
{
    let ghost w = s@.subrange(from as int, to as int);
    let mut i = from;
    if from < to && s[from] == '+' {
        i = from + 1;
    }
    let ghost d = s@.subrange(i as int, to as int);
    proof {
        if from < to && s@[from as int] == '+' {
            assert(d =~= w.drop_first());
        } else {
            assert(d =~= w);
        }
    }
    if i == to {
        return None;
    }
    let start = i;
    let mut acc: u64 = 0;
    let mut over = false;
    while i < to
        invariant
            start <= i <= to,
            to <= s@.len(),
            max <= u32::MAX,
            d == s@.subrange(start as int, to as int),
            w == s@.subrange(from as int, to as int),
            d == (if w.len() > 0 && w[0] == '+' {
                w.drop_first()
            } else {
                w
            }),
            all_digits(s@.subrange(start as int, i as int)),
            !over ==> acc == digits_value(s@.subrange(start as int, i as int)) && acc <= max,
            over ==> digits_value(s@.subrange(start as int, i as int)) > max,
        decreases to - i,
    {
        let c = s[i];
        if !('0' <= c && c <= '9') {
            proof {
                assert(d[i - start] == c);
                assert(!all_digits(d));
            }
            return None;
        }
        let dv = (c as u32 - 48) as u64;
        proof {
            assert(s@.subrange(start as int, i + 1) =~= s@.subrange(start as int, i as int).push(c));
            lemma_digits_grow(s@.subrange(start as int, i as int), c);
        }
        if !over {
            acc = acc * 10 + dv;
            if acc > max {
                over = true;
            }
        }
        i = i + 1;
    }
    proof {
        assert(s@.subrange(start as int, i as int) =~= d);
    }
    if over {
        None
    } else {
        Some(acc)
    }
}

pub open spec fn digit_char(d: nat) -> char {
    seq!['0', '1', '2', '3', '4', '5', '6', '7', '8', '9'][d as int]
}

/// The decimal digits of `n`, without leading zeros.
pub open spec fn decimal(n: nat) -> Seq<char>
    decreases n,
{
    if n < 10 {
        seq![digit_char(n)]
    } else {
        decimal(n / 10).push(digit_char(n % 10))
    }
}

/// Appends the decimal digits of `n` to `out`.
pub fn push_decimal(out: &mut String, n: u128)
    ensures
        final(out)@ == old(out)@ + decimal(n as nat),
    decreases n,
{
    if n >= 10 {
        push_decimal(out, n / 10);
    }
    let d = (n % 10) as usize;
    let digits = "0123456789";
    proof {
        reveal_strlit("0123456789");
    }
    let one = digits.substring_char(d, d + 1);
    proof {
        assert(one@ =~= seq![digit_char(d as nat)]);
    }
    out.append(one);
    proof {
        if n >= 10 {
            assert(decimal(n as nat) == decimal((n / 10) as nat).push(digit_char((n % 10) as nat)));
        }
    }
}

pub proof fn lemma_find_some(s: Seq<char>, p: Seq<char>, k: int)
    requires
        find(s, p) == Some(k),
    ensures
        first_at(s, p, k),
        0 <= k,
        k + p.len() <= s.len(),
{
}

/// The characters `s[from..to]`.
pub fn copy_range(s: &Vec<char>, from: usize, to: usize) -> (r: Vec<char>)
    requires
        from <= to <= s@.len(),
    ensures
        r@ == s@.subrange(from as int, to as int),
{
    let mut out: Vec<char> = Vec::with_capacity(to - from);
    let mut i = from;
    while i < to
        invariant
            from <= i <= to,
            to <= s@.len(),
            out@ == s@.subrange(from as int, i as int),
        decreases to - i,
    {
        out.push(s[i]);
        proof {
            assert(out@ =~= s@.subrange(from as int, i + 1));
        }
        i = i + 1;
    }
    out
}

/// Whether `x` and `y` hold the same characters.
pub fn same_chars(x: &Vec<char>, y: &Vec<char>) -> (r: bool)
    ensures
        r == (x@ == y@),
{
    if x.len() != y.len() {
        return false;
    }
    let mut i: usize = 0;
    while i < x.len()
        invariant
            x@.len() == y@.len(),
            i <= x@.len(),
            x@.take(i as int) == y@.take(i as int),
        decreases x@.len() - i,
    {
        if x[i] != y[i] {
            proof {
                assert(x@[i as int] != y@[i as int]);
            }
            return false;
        }
        proof {
            assert(x@.take(i + 1) =~= x@.take(i as int).push(x@[i as int]));
            assert(y@.take(i + 1) =~= y@.take(i as int).push(y@[i as int]));
        }
        i = i + 1;
    }
    proof {
        assert(x@.take(i as int) =~= x@);
        assert(y@.take(i as int) =~= y@);
    }
    true
}

/// Whether `a` and `b` hold the same characters.
pub fn same_text(a: &str, b: &str) -> (r: bool)
    ensures
        r == (a@ == b@),
{
    same_chars(&chars_of(a), &chars_of(b))
}

/// The length of the run of non-white-space characters that begins `s`.
pub open spec fn word_len(s: Seq<char>) -> nat
    decreases s.len(),
{
    if s.len() > 0 && !is_white_space(s[0]) {
        1 + word_len(s.drop_first())
    } else {
        0
    }
}

/// The end of the run of non-white-space characters that begins `s[from..to]`.
pub fn word_end(s: &Vec<char>, from: usize, to: usize) -> (r: usize)
    requires
        from <= to <= s@.len(),
    ensures
        from <= r <= to,
        word_len(s@.subrange(from as int, to as int)) == r - from,
{
    let mut i: usize = from;
    while i < to && !white_space(s[i])
        invariant
            from <= i <= to,
            to <= s@.len(),
            word_len(s@.subrange(from as int, to as int)) == (i - from) + word_len(
                s@.subrange(i as int, to as int),
            ),
        decreases to - i,
    {
        proof {
            assert(s@.subrange(i as int, to as int).drop_first() =~= s@.subrange(i + 1, to as int));
        }
        i = i + 1;
    }
    i
}

/// Appends `piece` to `out`.
pub fn push_str(out: &mut String, piece: &str)
    ensures
        final(out)@ == old(out)@ + piece@,
{
    out.append(piece);
}

/// The dotted form of an IPv4 address.
pub open spec fn ip_text(ip: [u8; 4]) -> Seq<char> {
    decimal(ip@[0] as nat) + seq!['.'] + decimal(ip@[1] as nat) + seq!['.'] + decimal(
        ip@[2] as nat,
    ) + seq!['.'] + decimal(ip@[3] as nat)
}

/// Appends the dotted form of `ip` to `out`.
pub fn push_ip(out: &mut String, ip: [u8; 4])
    ensures
        final(out)@ == old(out)@ + ip_text(ip),
{
    let dot = ".";
    proof {
        reveal_strlit(".");
        assert(dot@ =~= seq!['.']);
    }
    let ghost start = out@;
    push_decimal(out, ip[0] as u128);
    push_str(out, dot);
    push_decimal(out, ip[1] as u128);
    push_str(out, dot);
    push_decimal(out, ip[2] as u128);
    push_str(out, dot);
    push_decimal(out, ip[3] as u128);
    proof {
        assert(out@ =~= start + ip_text(ip));
    }
}

} // verus!
