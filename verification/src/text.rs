//! Character classes, run scanning, trimming and numeric conversion used by
//! every grammar of the report format.

use vstd::prelude::*;
use crate::is_ws;
use crate::ws_char;

verus! {

pub open spec fn is_hex_digit(c: char) -> bool {
    ('0' <= c && c <= '9') || ('a' <= c && c <= 'f')
}

pub open spec fn is_dec_digit(c: char) -> bool {
    '0' <= c && c <= '9'
}

/// The permission-token alphabet of a mapping header.
pub open spec fn is_perm_char(c: char) -> bool {
    c == 'r' || c == 'w' || c == 'x' || c == 's' || c == 'p' || c == '-'
}

pub fn hex_digit_char(c: char) -> (b: bool)
    ensures
        b == is_hex_digit(c),
{
    ('0' <= c && c <= '9') || ('a' <= c && c <= 'f')
}

pub fn dec_digit_char(c: char) -> (b: bool)
    ensures
        b == is_dec_digit(c),
{
    '0' <= c && c <= '9'
}

pub fn perm_char(c: char) -> (b: bool)
    ensures
        b == is_perm_char(c),
{
    c == 'r' || c == 'w' || c == 'x' || c == 's' || c == 'p' || c == '-'
}

/// Numeric value of one hexadecimal digit.
pub open spec fn hex_digit_val(c: char) -> nat
    recommends
        is_hex_digit(c),
{
    if '0' <= c && c <= '9' {
        (c as nat - '0' as nat) as nat
    } else {
        (c as nat - 'a' as nat + 10) as nat
    }
}

/// Numeric value of one decimal digit.
pub open spec fn dec_digit_val(c: char) -> nat
    recommends
        is_dec_digit(c),
{
    (c as nat - '0' as nat) as nat
}

/// Value of a run of hexadecimal digits, most significant first.
pub open spec fn hex_seq_val(s: Seq<char>) -> nat
    decreases s.len(),
{
    if s.len() == 0 {
        0
    } else {
        hex_seq_val(s.drop_last()) * 16 + hex_digit_val(s.last())
    }
}

/// Value of a run of decimal digits, most significant first.
pub open spec fn dec_seq_val(s: Seq<char>) -> nat
    decreases s.len(),
{
    if s.len() == 0 {
        0
    } else {
        dec_seq_val(s.drop_last()) * 10 + dec_digit_val(s.last())
    }
}

/// End of the run of whitespace characters starting at `i`.
pub open spec fn ws_end(s: Seq<char>, i: int) -> int
    decreases s.len() - i,
{
    if 0 <= i && i < s.len() && is_ws(s[i]) {
        ws_end(s, i + 1)
    } else {
        i
    }
}

/// End of the run of hexadecimal digits starting at `i`.
pub open spec fn hex_end(s: Seq<char>, i: int) -> int
    decreases s.len() - i,
{
    if 0 <= i && i < s.len() && is_hex_digit(s[i]) {
        hex_end(s, i + 1)
    } else {
        i
    }
}

/// End of the run of decimal digits starting at `i`.
pub open spec fn dec_end(s: Seq<char>, i: int) -> int
    decreases s.len() - i,
{
    if 0 <= i && i < s.len() && is_dec_digit(s[i]) {
        dec_end(s, i + 1)
    } else {
        i
    }
}

/// End of the run of permission-alphabet characters starting at `i`.
pub open spec fn perm_end(s: Seq<char>, i: int) -> int
    decreases s.len() - i,
{
    if 0 <= i && i < s.len() && is_perm_char(s[i]) {
        perm_end(s, i + 1)
    } else {
        i
    }
}

/// A maximal run determines `ws_end` uniquely.
pub proof fn lemma_ws_end_is(s: Seq<char>, i: int, e: int)
    requires
        0 <= i <= e <= s.len(),
        forall|j: int| i <= j < e ==> is_ws(s[j]),
        e == s.len() || !is_ws(s[e]),
    ensures
        ws_end(s, i) == e,
    decreases e - i,
{
    if i < e {
        lemma_ws_end_is(s, i + 1, e);
    }
}

pub proof fn lemma_hex_end_is(s: Seq<char>, i: int, e: int)
    requires
        0 <= i <= e <= s.len(),
        forall|j: int| i <= j < e ==> is_hex_digit(s[j]),
        e == s.len() || !is_hex_digit(s[e]),
    ensures
        hex_end(s, i) == e,
    decreases e - i,
{
    if i < e {
        lemma_hex_end_is(s, i + 1, e);
    }
}

pub proof fn lemma_dec_end_is(s: Seq<char>, i: int, e: int)
    requires
        0 <= i <= e <= s.len(),
        forall|j: int| i <= j < e ==> is_dec_digit(s[j]),
        e == s.len() || !is_dec_digit(s[e]),
    ensures
        dec_end(s, i) == e,
    decreases e - i,
{
    if i < e {
        lemma_dec_end_is(s, i + 1, e);
    }
}

pub proof fn lemma_perm_end_is(s: Seq<char>, i: int, e: int)
    requires
        0 <= i <= e <= s.len(),
        forall|j: int| i <= j < e ==> is_perm_char(s[j]),
        e == s.len() || !is_perm_char(s[e]),
    ensures
        perm_end(s, i) == e,
    decreases e - i,
{
    if i < e {
        lemma_perm_end_is(s, i + 1, e);
    }
}

/// Start of the run of whitespace characters that ends at `i`.
pub open spec fn ws_begin(s: Seq<char>, i: int) -> int
    decreases i,
{
    if 0 < i && i <= s.len() && is_ws(s[i - 1]) {
        ws_begin(s, i - 1)
    } else {
        i
    }
}

pub proof fn lemma_ws_begin_is(s: Seq<char>, i: int, b: int)
    requires
        0 <= b <= i <= s.len(),
        forall|j: int| b <= j < i ==> is_ws(s[j]),
        b == 0 || !is_ws(s[b - 1]),
    ensures
        ws_begin(s, i) == b,
    decreases i - b,
{
    if b < i {
        lemma_ws_begin_is(s, i - 1, b);
    }
}

/// The input with leading and trailing whitespace removed.
pub open spec fn trim_of(s: Seq<char>) -> Seq<char> {
    let lo = ws_end(s, 0);
    if lo == s.len() {
        Seq::empty()
    } else {
        s.subrange(lo, ws_begin(s, s.len() as int))
    }
}

/// Index of the first occurrence of `sep`, or the length if there is none.
pub open spec fn find_sep(s: Seq<char>, sep: char) -> int
    decreases s.len(),
{
    if s.len() == 0 {
        0
    } else if s[0] == sep {
        0
    } else {
        1 + find_sep(s.drop_first(), sep)
    }
}

pub proof fn lemma_find_sep(s: Seq<char>, sep: char)
    ensures
        0 <= find_sep(s, sep) <= s.len(),
        forall|j: int| 0 <= j < find_sep(s, sep) ==> s[j] != sep,
        find_sep(s, sep) < s.len() ==> s[find_sep(s, sep)] == sep,
    decreases s.len(),
{
    if s.len() > 0 && s[0] != sep {
        lemma_find_sep(s.drop_first(), sep);
        assert(forall|j: int| 1 <= j < find_sep(s, sep) ==> s[j] == s.drop_first()[j - 1]);
    }
}

pub proof fn lemma_find_sep_is(s: Seq<char>, sep: char, e: int)
    requires
        0 <= e <= s.len(),
        forall|j: int| 0 <= j < e ==> s[j] != sep,
        e == s.len() || s[e] == sep,
    ensures
        find_sep(s, sep) == e,
    decreases s.len(),
{
    if s.len() > 0 && s[0] != sep {
        assert(forall|j: int| 0 <= j < e - 1 ==> s.drop_first()[j] != sep);
        lemma_find_sep_is(s.drop_first(), sep, e - 1);
    }
}

/// The fields of the input, split on single occurrences of `sep`.
pub open spec fn split_on(s: Seq<char>, sep: char) -> Seq<Seq<char>>
    decreases s.len(),
    via split_on_dec
{
    let f = find_sep(s, sep);
    if f == s.len() {
        seq![s]
    } else {
        seq![s.subrange(0, f)] + split_on(s.subrange(f + 1, s.len() as int), sep)
    }
}

#[via_fn]
proof fn split_on_dec(s: Seq<char>, sep: char) {
    lemma_find_sep(s, sep);
}

/// First position at or after `from` whose character is not whitespace.
pub fn scan_ws(v: &Vec<char>, from: usize) -> (e: usize)
    requires
        from <= v@.len(),
    ensures
        from <= e <= v@.len(),
        e == ws_end(v@, from as int),
        forall|j: int| from <= j < e ==> is_ws(v@[j]),
        e < v@.len() ==> !is_ws(v@[e as int]),
{
    let n = v.len();
    let mut e = from;
    while e < n
        invariant
            from <= e <= n,
            n == v@.len(),
            forall|j: int| from <= j < e ==> is_ws(v@[j]),
        decreases n - e,
    {
        if !ws_char(v[e]) {
            proof {
                lemma_ws_end_is(v@, from as int, e as int);
            }
            return e;
        }
        e = e + 1;
    }
    proof {
        lemma_ws_end_is(v@, from as int, e as int);
    }
    e
}

/// First position at or after `from` whose character is not a hex digit.
pub fn scan_hex(v: &Vec<char>, from: usize) -> (e: usize)
    requires
        from <= v@.len(),
    ensures
        from <= e <= v@.len(),
        e == hex_end(v@, from as int),
        forall|j: int| from <= j < e ==> is_hex_digit(v@[j]),
        e < v@.len() ==> !is_hex_digit(v@[e as int]),
{
    let n = v.len();
    let mut e = from;
    while e < n
        invariant
            from <= e <= n,
            n == v@.len(),
            forall|j: int| from <= j < e ==> is_hex_digit(v@[j]),
        decreases n - e,
    {
        if !hex_digit_char(v[e]) {
            proof {
                lemma_hex_end_is(v@, from as int, e as int);
            }
            return e;
        }
        e = e + 1;
    }
    proof {
        lemma_hex_end_is(v@, from as int, e as int);
    }
    e
}

/// First position at or after `from` whose character is not a decimal digit.
pub fn scan_dec(v: &Vec<char>, from: usize) -> (e: usize)
    requires
        from <= v@.len(),
    ensures
        from <= e <= v@.len(),
        e == dec_end(v@, from as int),
        forall|j: int| from <= j < e ==> is_dec_digit(v@[j]),
        e < v@.len() ==> !is_dec_digit(v@[e as int]),
{
    let n = v.len();
    let mut e = from;
    while e < n
        invariant
            from <= e <= n,
            n == v@.len(),
            forall|j: int| from <= j < e ==> is_dec_digit(v@[j]),
        decreases n - e,
    {
        if !dec_digit_char(v[e]) {
            proof {
                lemma_dec_end_is(v@, from as int, e as int);
            }
            return e;
        }
        e = e + 1;
    }
    proof {
        lemma_dec_end_is(v@, from as int, e as int);
    }
    e
}

/// First position at or after `from` whose character is outside the
/// permission alphabet.
pub fn scan_perm(v: &Vec<char>, from: usize) -> (e: usize)
    requires
        from <= v@.len(),
    ensures
        from <= e <= v@.len(),
        e == perm_end(v@, from as int),
        forall|j: int| from <= j < e ==> is_perm_char(v@[j]),
        e < v@.len() ==> !is_perm_char(v@[e as int]),
{
    let n = v.len();
    let mut e = from;
    while e < n
        invariant
            from <= e <= n,
            n == v@.len(),
            forall|j: int| from <= j < e ==> is_perm_char(v@[j]),
        decreases n - e,
    {
        if !perm_char(v[e]) {
            proof {
                lemma_perm_end_is(v@, from as int, e as int);
            }
            return e;
        }
        e = e + 1;
    }
    proof {
        lemma_perm_end_is(v@, from as int, e as int);
    }
    e
}

/// First occurrence of `c` at or after `from`, or the end of the vector.
pub fn scan_to(v: &Vec<char>, from: usize, c: char) -> (q: usize)
    requires
        from <= v@.len(),
    ensures
        from <= q <= v@.len(),
        forall|j: int| from <= j < q ==> v@[j] != c,
        q == v@.len() || v@[q as int] == c,
{
    let n = v.len();
    let mut q = from;
    while q < n
        invariant
            from <= q <= n,
            n == v@.len(),
            forall|j: int| from <= j < q ==> v@[j] != c,
        decreases n - q,
    {
        if v[q] == c {
            return q;
        }
        q = q + 1;
    }
    q
}

/// Bounds of the input with surrounding whitespace dropped: the trimmed
/// text is exactly `v[lo..hi]`.
pub fn trim_bounds(v: &Vec<char>) -> (r: (usize, usize))
    ensures
        ({
            let (lo, hi) = r;
            &&& lo <= hi <= v@.len()
            &&& trim_of(v@) == v@.subrange(lo as int, hi as int)
            &&& (lo < hi ==> !is_ws(v@[lo as int]) && !is_ws(v@[hi - 1]))
        }),
{
    let n = v.len();
    let lo = scan_ws(v, 0);
    if lo == n {
        proof {
            assert(trim_of(v@) =~= v@.subrange(n as int, n as int));
        }
        return (n, n);
    }
    let mut hi = n;
    while hi > lo && ws_char(v[hi - 1])
        invariant
            lo < n,
            lo <= hi <= n,
            n == v@.len(),
            forall|j: int| hi <= j < n ==> is_ws(v@[j]),
        decreases hi,
    {
        hi = hi - 1;
    }
    proof {
        if hi == lo {
            assert(is_ws(v@[lo as int]));
            assert(false);
        }
        assert(!is_ws(v@[hi - 1]));
        lemma_ws_begin_is(v@, v@.len() as int, hi as int);
    }
    (lo, hi)
}

/// A copy of the characters `v[lo..hi]`.
pub fn copy_range(v: &Vec<char>, lo: usize, hi: usize) -> (r: Vec<char>)
    requires
        lo <= hi <= v@.len(),
    ensures
        r@ == v@.subrange(lo as int, hi as int),
{
    let mut r: Vec<char> = Vec::new();
    let mut i = lo;
    while i < hi
        invariant
            lo <= i <= hi <= v@.len(),
            r@ == v@.subrange(lo as int, i as int),
        decreases hi - i,
    {
        r.push(v[i]);
        i = i + 1;
        proof {
            assert(r@ =~= v@.subrange(lo as int, i as int));
        }
    }
    r
}

/// The characters of a string slice, as a vector.
pub fn chars_of(s: &str) -> (v: Vec<char>)
    ensures
        v@ == s@,
{
    let n = s.unicode_len();
    let mut v: Vec<char> = Vec::new();
    let mut i: usize = 0;
    while i < n
        invariant
            n == s@.len(),
            i <= n,
            v@ == s@.subrange(0, i as int),
        decreases n - i,
    {
        let c = s.get_char(i);
        v.push(c);
        i = i + 1;
        proof {
            assert(v@ =~= s@.subrange(0, i as int));
        }
    }
    proof {
        assert(s@.subrange(0, n as int) =~= s@);
    }
    v
}

/// Whether the characters of `v` in `[lo, hi)` equal the word `w`.
pub fn range_eq_str(v: &Vec<char>, lo: usize, hi: usize, w: &str) -> (b: bool)
    requires
        lo <= hi <= v@.len(),
    ensures
        b == (v@.subrange(lo as int, hi as int) == w@),
{
    let wl = w.unicode_len();
    if hi - lo != wl {
        proof {
            assert(v@.subrange(lo as int, hi as int).len() != w@.len());
        }
        return false;
    }
    let mut i: usize = 0;
    while i < wl
        invariant
            lo <= hi <= v@.len(),
            hi - lo == wl,
            wl == w@.len(),
            i <= wl,
            forall|j: int| 0 <= j < i ==> v@[lo + j] == w@[j],
        decreases wl - i,
    {
        if v[lo + i] != w.get_char(i) {
            proof {
                assert(v@.subrange(lo as int, hi as int)[i as int] != w@[i as int]);
            }
            return false;
        }
        i = i + 1;
    }
    proof {
        assert(v@.subrange(lo as int, hi as int) =~= w@);
    }
    true
}

/// A shorter run of hexadecimal digits never has the larger value.
pub proof fn lemma_hex_prefix_le(s: Seq<char>, k: int)
    requires
        0 <= k <= s.len(),
    ensures
        hex_seq_val(s.take(k)) <= hex_seq_val(s),
    decreases s.len(),
{
    if k < s.len() {
        assert(s.drop_last().take(k) =~= s.take(k));
        lemma_hex_prefix_le(s.drop_last(), k);
        assert(hex_seq_val(s) == hex_seq_val(s.drop_last()) * 16 + hex_digit_val(s.last()));
        assert(hex_seq_val(s.drop_last()) * 16 >= hex_seq_val(s.drop_last())) by (nonlinear_arith);
    } else {
        assert(s.take(k) =~= s);
    }
}

/// A shorter run of decimal digits never has the larger value.
pub proof fn lemma_dec_prefix_le(s: Seq<char>, k: int)
    requires
        0 <= k <= s.len(),
    ensures
        dec_seq_val(s.take(k)) <= dec_seq_val(s),
    decreases s.len(),
{
    if k < s.len() {
        assert(s.drop_last().take(k) =~= s.take(k));
        lemma_dec_prefix_le(s.drop_last(), k);
        assert(dec_seq_val(s) == dec_seq_val(s.drop_last()) * 10 + dec_digit_val(s.last()));
        assert(dec_seq_val(s.drop_last()) * 10 >= dec_seq_val(s.drop_last())) by (nonlinear_arith);
    } else {
        assert(s.take(k) =~= s);
    }
}

/// Reads the hexadecimal run `v[from..to]` as a `u64`; reports the value
/// exactly, and failure exactly when the value does not fit.
pub fn parse_hex_u64(v: &Vec<char>, from: usize, to: usize) -> (r: Option<u64>)
    requires
        from <= to <= v@.len(),
        forall|j: int| from <= j < to ==> is_hex_digit(v@[j]),
    ensures
        match r {
            Some(n) => n == hex_seq_val(v@.subrange(from as int, to as int)),
            None => hex_seq_val(v@.subrange(from as int, to as int)) > u64::MAX,
        },
{
    let ghost s = v@.subrange(from as int, to as int);
    let mut acc: u64 = 0;
    let mut i: usize = from;
    while i < to
        invariant
            from <= i <= to <= v@.len(),
            forall|j: int| from <= j < to ==> is_hex_digit(v@[j]),
            s == v@.subrange(from as int, to as int),
            acc == hex_seq_val(s.take(i - from)),
        decreases to - i,
    {
        let c = v[i];
        let u = c as u32;
        let d: u64 = if u >= 97 {
            (u - 87) as u64
        } else {
            (u - 48) as u64
        };
        proof {
            assert(is_hex_digit(s[i - from]));
            assert(d == hex_digit_val(s[i - from]));
            assert(d <= 15);
        }
        if acc > (u64::MAX - d) / 16 {
            proof {
                let k = i - from + 1;
                assert(s.take(k).drop_last() =~= s.take(k - 1));
                assert(s.take(k).last() == s[i - from]);
                assert(hex_seq_val(s.take(k)) == acc * 16 + d);
                let m = (u64::MAX - d) as int;
                vstd::arithmetic::div_mod::lemma_fundamental_div_mod(m, 16);
                assert(acc * 16 >= (m / 16 + 1) * 16) by (nonlinear_arith)
                    requires acc > m / 16;
                assert(hex_seq_val(s.take(k)) > u64::MAX);
                lemma_hex_prefix_le(s, k);
            }
            return None;
        }
        proof {
            let m = (u64::MAX - d) as int;
            vstd::arithmetic::div_mod::lemma_fundamental_div_mod(m, 16);
            assert(acc * 16 <= (m / 16) * 16) by (nonlinear_arith)
                requires acc <= m / 16;
            assert(acc * 16 + d <= u64::MAX);
            let k = i - from + 1;
            assert(s.take(k).drop_last() =~= s.take(k - 1));
            assert(s.take(k).last() == s[i - from]);
        }
        acc = acc * 16 + d;
        i = i + 1;
    }
    proof {
        assert(s.take(to - from) =~= s);
    }
    Some(acc)
}

/// Reads the decimal run `v[from..to]` as a `u64`; reports the value
/// exactly, and failure exactly when the value does not fit.
pub fn parse_dec_u64(v: &Vec<char>, from: usize, to: usize) -> (r: Option<u64>)
    requires
        from <= to <= v@.len(),
        forall|j: int| from <= j < to ==> is_dec_digit(v@[j]),
    ensures
        match r {
            Some(n) => n == dec_seq_val(v@.subrange(from as int, to as int)),
            None => dec_seq_val(v@.subrange(from as int, to as int)) > u64::MAX,
        },
{
    let ghost s = v@.subrange(from as int, to as int);
    let mut acc: u64 = 0;
    let mut i: usize = from;
    while i < to
        invariant
            from <= i <= to <= v@.len(),
            forall|j: int| from <= j < to ==> is_dec_digit(v@[j]),
            s == v@.subrange(from as int, to as int),
            acc == dec_seq_val(s.take(i - from)),
        decreases to - i,
    {
        let c = v[i];
        let u = c as u32;
        let d: u64 = (u - 48) as u64;
        proof {
            assert(is_dec_digit(s[i - from]));
            assert(d == dec_digit_val(s[i - from]));
            assert(d <= 9);
        }
        if acc > (u64::MAX - d) / 10 {
            proof {
                let k = i - from + 1;
                assert(s.take(k).drop_last() =~= s.take(k - 1));
                assert(s.take(k).last() == s[i - from]);
                assert(dec_seq_val(s.take(k)) == acc * 10 + d);
                let m = (u64::MAX - d) as int;
                vstd::arithmetic::div_mod::lemma_fundamental_div_mod(m, 10);
                assert(acc * 10 >= (m / 10 + 1) * 10) by (nonlinear_arith)
                    requires acc > m / 10;
                assert(dec_seq_val(s.take(k)) > u64::MAX);
                lemma_dec_prefix_le(s, k);
            }
            return None;
        }
        proof {
            let m = (u64::MAX - d) as int;
            vstd::arithmetic::div_mod::lemma_fundamental_div_mod(m, 10);
            assert(acc * 10 <= (m / 10) * 10) by (nonlinear_arith)
                requires acc <= m / 10;
            assert(acc * 10 + d <= u64::MAX);
            let k = i - from + 1;
            assert(s.take(k).drop_last() =~= s.take(k - 1));
            assert(s.take(k).last() == s[i - from]);
        }
        acc = acc * 10 + d;
        i = i + 1;
    }
    proof {
        assert(s.take(to - from) =~= s);
    }
    Some(acc)
}

} // verus!
