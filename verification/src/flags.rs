//! VM-flag-set decoder: turns the space-separated list of two-letter kernel
//! mnemonics on a flags line into a named boolean set. Unknown mnemonics are
//! ignored so that reports from newer kernels still decode.

use vstd::prelude::*;
use crate::text::split_on;

verus! {

#[derive(Clone, Copy, Debug, Default, PartialEq)]
pub struct VmFlags {
    pub rd: bool,
    pub wr: bool,
    pub ex: bool,
    pub sh: bool,
    pub mr: bool,
    pub mw: bool,
    pub me: bool,
    pub ms: bool,
    pub gd: bool,
    pub pf: bool,
    pub dw: bool,
    pub lo: bool,
    pub io: bool,
    pub sr: bool,
    pub rr: bool,
    pub dc: bool,
    pub de: bool,
    pub ac: bool,
    pub nr: bool,
    pub ht: bool,
    pub sf: bool,
    pub nl: bool,
    pub ar: bool,
    pub wf: bool,
    pub dd: bool,
    pub sd: bool,
    pub mm: bool,
    pub hg: bool,
    pub nh: bool,
    pub mg: bool,
    pub um: bool,
    pub uw: bool,
}

/// The flag set with every mnemonic absent.
pub open spec fn vmflags_empty() -> VmFlags {
    VmFlags {
        rd: false, wr: false, ex: false, sh: false, mr: false, mw: false,
        me: false, ms: false, gd: false, pf: false, dw: false, lo: false,
        io: false, sr: false, rr: false, dc: false, de: false, ac: false,
        nr: false, ht: false, sf: false, nl: false, ar: false, wf: false,
        dd: false, sd: false, mm: false, hg: false, nh: false, mg: false,
        um: false, uw: false,
    }
}

/// The set decoded from a flags line: a flag is present exactly when its
/// two-letter mnemonic occurs among the fields of the line split on single
/// spaces. Order and repetition of fields are irrelevant; fields that are
/// not recognized mnemonics contribute nothing.
pub open spec fn vmflags_model(s: Seq<char>) -> VmFlags {
    let toks = split_on(s, ' ');
    VmFlags {
        rd: toks.contains(seq!['r', 'd']),
        wr: toks.contains(seq!['w', 'r']),
        ex: toks.contains(seq!['e', 'x']),
        sh: toks.contains(seq!['s', 'h']),
        mr: toks.contains(seq!['m', 'r']),
        mw: toks.contains(seq!['m', 'w']),
        me: toks.contains(seq!['m', 'e']),
        ms: toks.contains(seq!['m', 's']),
        gd: toks.contains(seq!['g', 'd']),
        pf: toks.contains(seq!['p', 'f']),
        dw: toks.contains(seq!['d', 'w']),
        lo: toks.contains(seq!['l', 'o']),
        io: toks.contains(seq!['i', 'o']),
        sr: toks.contains(seq!['s', 'r']),
        rr: toks.contains(seq!['r', 'r']),
        dc: toks.contains(seq!['d', 'c']),
        de: toks.contains(seq!['d', 'e']),
        ac: toks.contains(seq!['a', 'c']),
        nr: toks.contains(seq!['n', 'r']),
        ht: toks.contains(seq!['h', 't']),
        sf: toks.contains(seq!['s', 'f']),
        nl: toks.contains(seq!['n', 'l']),
        ar: toks.contains(seq!['a', 'r']),
        wf: toks.contains(seq!['w', 'f']),
        dd: toks.contains(seq!['d', 'd']),
        sd: toks.contains(seq!['s', 'd']),
        mm: toks.contains(seq!['m', 'm']),
        hg: toks.contains(seq!['h', 'g']),
        nh: toks.contains(seq!['n', 'h']),
        mg: toks.contains(seq!['m', 'g']),
        um: toks.contains(seq!['u', 'm']),
        uw: toks.contains(seq!['u', 'w']),
    }
}

/// A two-letter field stands at position `i`: the two characters match and
/// both sides of the pair touch a space or an end of the line.
pub open spec fn token_at(s: Seq<char>, i: int, c0: char, c1: char) -> bool {
    &&& 0 <= i
    &&& i + 2 <= s.len()
    &&& s[i] == c0
    &&& s[i + 1] == c1
    &&& (i == 0 || s[i - 1] == ' ')
    &&& (i + 2 == s.len() || s[i + 2] == ' ')
}

pub open spec fn has_token(s: Seq<char>, c0: char, c1: char) -> bool {
    exists|i: int| token_at(s, i, c0, c1)
}

pub open spec fn has_token_upto(s: Seq<char>, c0: char, c1: char, b: int) -> bool {
    exists|i: int| token_at(s, i, c0, c1) && i < b
}

/// A two-letter word free of spaces is a field of the split exactly when it
/// stands somewhere in the line flanked by spaces or line ends.
pub proof fn lemma_token_membership(s: Seq<char>, c0: char, c1: char)
    requires
        c0 != ' ',
        c1 != ' ',
    ensures
        split_on(s, ' ').contains(seq![c0, c1]) == has_token(s, c0, c1),
    decreases s.len(),
{
    let tok = seq![c0, c1];
    let f = crate::text::find_sep(s, ' ');
    crate::text::lemma_find_sep(s, ' ');
    if f == s.len() {
        // One field: the whole line, which holds no space.
        assert(split_on(s, ' ') == seq![s]);
        if s == tok {
            assert(token_at(s, 0, c0, c1));
            assert(split_on(s, ' ')[0] == s);
        }
        if has_token(s, c0, c1) {
            let i = choose|i: int| token_at(s, i, c0, c1);
            assert(i == 0);
            assert(i + 2 == s.len());
            assert(s =~= tok);
        }
        if split_on(s, ' ').contains(tok) {
            let j = choose|j: int| 0 <= j < seq![s].len() && seq![s][j] == tok;
            assert(s == tok);
        }
    } else {
        let head = s.subrange(0, f);
        let tail = s.subrange(f + 1, s.len() as int);
        assert(split_on(s, ' ') == seq![head] + split_on(tail, ' '));
        lemma_token_membership(tail, c0, c1);
        // Membership in the concatenation splits over head and tail.
        let toks = seq![head] + split_on(tail, ' ');
        assert(toks.contains(tok) == (head == tok || split_on(tail, ' ').contains(tok))) by {
            if head == tok {
                assert(toks[0] == tok);
            }
            if split_on(tail, ' ').contains(tok) {
                let j = choose|j: int|
                    0 <= j < split_on(tail, ' ').len() && split_on(tail, ' ')[j] == tok;
                assert(toks[j + 1] == tok);
            }
            if toks.contains(tok) {
                let j = choose|j: int| 0 <= j < toks.len() && toks[j] == tok;
                if j == 0 {
                    assert(head == tok);
                } else {
                    assert(split_on(tail, ' ')[j - 1] == tok);
                }
            }
        }
        // The positional form splits the same way.
        assert(has_token(s, c0, c1) == (head == tok || has_token(tail, c0, c1))) by {
            if head == tok {
                assert(head.len() == 2);
                assert(f == 2);
                assert(s[0] == head[0] && s[1] == head[1]);
                assert(token_at(s, 0, c0, c1));
            }
            if has_token(tail, c0, c1) {
                let i = choose|i: int| token_at(tail, i, c0, c1);
                assert(token_at(s, i + f + 1, c0, c1)) by {
                    assert(tail[i] == s[i + f + 1]);
                    assert(tail[i + 1] == s[i + f + 2]);
                    if i > 0 {
                        assert(tail[i - 1] == s[i + f]);
                    }
                    if i + 2 < tail.len() {
                        assert(tail[i + 2] == s[i + f + 3]);
                    }
                }
            }
            if has_token(s, c0, c1) {
                let i = choose|i: int| token_at(s, i, c0, c1);
                assert(s[i] != ' ' && s[i + 1] != ' ');
                if i < f {
                    assert(i + 1 != f);
                    assert(i == 0);
                    assert(i + 2 <= f);
                    assert(i + 2 < s.len());
                    assert(s[i + 2] == ' ');
                    assert(i + 2 == f);
                    assert(head =~= tok);
                } else {
                    assert(i != f);
                    let k = i - f - 1;
                    assert(token_at(tail, k, c0, c1)) by {
                        assert(tail[k] == s[i]);
                        assert(tail[k + 1] == s[i + 1]);
                        if k > 0 {
                            assert(tail[k - 1] == s[i - 1]);
                            assert(s[i - 1] == ' ');
                        }
                        if k + 2 < tail.len() {
                            assert(i + 2 < s.len());
                            assert(tail[k + 2] == s[i + 2]);
                        } else {
                            assert(k + 2 == tail.len());
                        }
                    }
                }
            }
        }
    }
}

/// The flags decoded from the fields that begin before position `b`.
pub open spec fn flags_inv(f: VmFlags, s: Seq<char>, b: int) -> bool {
    &&& f.rd == has_token_upto(s, 'r', 'd', b)
    &&& f.wr == has_token_upto(s, 'w', 'r', b)
    &&& f.ex == has_token_upto(s, 'e', 'x', b)
    &&& f.sh == has_token_upto(s, 's', 'h', b)
    &&& f.mr == has_token_upto(s, 'm', 'r', b)
    &&& f.mw == has_token_upto(s, 'm', 'w', b)
    &&& f.me == has_token_upto(s, 'm', 'e', b)
    &&& f.ms == has_token_upto(s, 'm', 's', b)
    &&& f.gd == has_token_upto(s, 'g', 'd', b)
    &&& f.pf == has_token_upto(s, 'p', 'f', b)
    &&& f.dw == has_token_upto(s, 'd', 'w', b)
    &&& f.lo == has_token_upto(s, 'l', 'o', b)
    &&& f.io == has_token_upto(s, 'i', 'o', b)
    &&& f.sr == has_token_upto(s, 's', 'r', b)
    &&& f.rr == has_token_upto(s, 'r', 'r', b)
    &&& f.dc == has_token_upto(s, 'd', 'c', b)
    &&& f.de == has_token_upto(s, 'd', 'e', b)
    &&& f.ac == has_token_upto(s, 'a', 'c', b)
    &&& f.nr == has_token_upto(s, 'n', 'r', b)
    &&& f.ht == has_token_upto(s, 'h', 't', b)
    &&& f.sf == has_token_upto(s, 's', 'f', b)
    &&& f.nl == has_token_upto(s, 'n', 'l', b)
    &&& f.ar == has_token_upto(s, 'a', 'r', b)
    &&& f.wf == has_token_upto(s, 'w', 'f', b)
    &&& f.dd == has_token_upto(s, 'd', 'd', b)
    &&& f.sd == has_token_upto(s, 's', 'd', b)
    &&& f.mm == has_token_upto(s, 'm', 'm', b)
    &&& f.hg == has_token_upto(s, 'h', 'g', b)
    &&& f.nh == has_token_upto(s, 'n', 'h', b)
    &&& f.mg == has_token_upto(s, 'm', 'g', b)
    &&& f.um == has_token_upto(s, 'u', 'm', b)
    &&& f.uw == has_token_upto(s, 'u', 'w', b)
}

/// The flag set after one two-letter field: the matching mnemonic's flag,
/// if any, is set. The mnemonics are pairwise distinct, so at most one
/// flag changes.
pub open spec fn apply_pair(f: VmFlags, c0: char, c1: char) -> VmFlags {
    VmFlags {
        rd: f.rd || (c0 == 'r' && c1 == 'd'),
        wr: f.wr || (c0 == 'w' && c1 == 'r'),
        ex: f.ex || (c0 == 'e' && c1 == 'x'),
        sh: f.sh || (c0 == 's' && c1 == 'h'),
        mr: f.mr || (c0 == 'm' && c1 == 'r'),
        mw: f.mw || (c0 == 'm' && c1 == 'w'),
        me: f.me || (c0 == 'm' && c1 == 'e'),
        ms: f.ms || (c0 == 'm' && c1 == 's'),
        gd: f.gd || (c0 == 'g' && c1 == 'd'),
        pf: f.pf || (c0 == 'p' && c1 == 'f'),
        dw: f.dw || (c0 == 'd' && c1 == 'w'),
        lo: f.lo || (c0 == 'l' && c1 == 'o'),
        io: f.io || (c0 == 'i' && c1 == 'o'),
        sr: f.sr || (c0 == 's' && c1 == 'r'),
        rr: f.rr || (c0 == 'r' && c1 == 'r'),
        dc: f.dc || (c0 == 'd' && c1 == 'c'),
        de: f.de || (c0 == 'd' && c1 == 'e'),
        ac: f.ac || (c0 == 'a' && c1 == 'c'),
        nr: f.nr || (c0 == 'n' && c1 == 'r'),
        ht: f.ht || (c0 == 'h' && c1 == 't'),
        sf: f.sf || (c0 == 's' && c1 == 'f'),
        nl: f.nl || (c0 == 'n' && c1 == 'l'),
        ar: f.ar || (c0 == 'a' && c1 == 'r'),
        wf: f.wf || (c0 == 'w' && c1 == 'f'),
        dd: f.dd || (c0 == 'd' && c1 == 'd'),
        sd: f.sd || (c0 == 's' && c1 == 'd'),
        mm: f.mm || (c0 == 'm' && c1 == 'm'),
        hg: f.hg || (c0 == 'h' && c1 == 'g'),
        nh: f.nh || (c0 == 'n' && c1 == 'h'),
        mg: f.mg || (c0 == 'm' && c1 == 'g'),
        um: f.um || (c0 == 'u' && c1 == 'm'),
        uw: f.uw || (c0 == 'u' && c1 == 'w'),
    }
}

/// Sets the flag of one two-letter field, if it is a recognized mnemonic.
fn pair_flags(f: VmFlags, c0: char, c1: char) -> (r: VmFlags)
    ensures
        r == apply_pair(f, c0, c1),
{
    VmFlags {
        rd: f.rd || (c0 == 'r' && c1 == 'd'),
        wr: f.wr || (c0 == 'w' && c1 == 'r'),
        ex: f.ex || (c0 == 'e' && c1 == 'x'),
        sh: f.sh || (c0 == 's' && c1 == 'h'),
        mr: f.mr || (c0 == 'm' && c1 == 'r'),
        mw: f.mw || (c0 == 'm' && c1 == 'w'),
        me: f.me || (c0 == 'm' && c1 == 'e'),
        ms: f.ms || (c0 == 'm' && c1 == 's'),
        gd: f.gd || (c0 == 'g' && c1 == 'd'),
        pf: f.pf || (c0 == 'p' && c1 == 'f'),
        dw: f.dw || (c0 == 'd' && c1 == 'w'),
        lo: f.lo || (c0 == 'l' && c1 == 'o'),
        io: f.io || (c0 == 'i' && c1 == 'o'),
        sr: f.sr || (c0 == 's' && c1 == 'r'),
        rr: f.rr || (c0 == 'r' && c1 == 'r'),
        dc: f.dc || (c0 == 'd' && c1 == 'c'),
        de: f.de || (c0 == 'd' && c1 == 'e'),
        ac: f.ac || (c0 == 'a' && c1 == 'c'),
        nr: f.nr || (c0 == 'n' && c1 == 'r'),
        ht: f.ht || (c0 == 'h' && c1 == 't'),
        sf: f.sf || (c0 == 's' && c1 == 'f'),
        nl: f.nl || (c0 == 'n' && c1 == 'l'),
        ar: f.ar || (c0 == 'a' && c1 == 'r'),
        wf: f.wf || (c0 == 'w' && c1 == 'f'),
        dd: f.dd || (c0 == 'd' && c1 == 'd'),
        sd: f.sd || (c0 == 's' && c1 == 'd'),
        mm: f.mm || (c0 == 'm' && c1 == 'm'),
        hg: f.hg || (c0 == 'h' && c1 == 'g'),
        nh: f.nh || (c0 == 'n' && c1 == 'h'),
        mg: f.mg || (c0 == 'm' && c1 == 'g'),
        um: f.um || (c0 == 'u' && c1 == 'm'),
        uw: f.uw || (c0 == 'u' && c1 == 'w'),
    }
}

/// One step of the decode loop: the field starting at `p` reaches to `q`,
/// and every flag then reflects the fields that begin before `q + 1`.
#[verifier::rlimit(100)]
proof fn lemma_flags_step(f0: VmFlags, f1: VmFlags, s: Seq<char>, p: int, q: int)
    requires
        flags_inv(f0, s, p),
        0 <= p <= q <= s.len(),
        p == 0 || s[p - 1] == ' ',
        forall|j: int| p <= j < q ==> s[j] != ' ',
        q == s.len() || s[q] == ' ',
        f1 == (if q == p + 2 {
            apply_pair(f0, s[p], s[p + 1])
        } else {
            f0
        }),
    ensures
        flags_inv(f1, s, q + 1),
{
    assert forall|c0: char, c1: char| (c0 != ' ' && c1 != ' ') implies
        (has_token_upto(s, c0, c1, q + 1) == (has_token_upto(s, c0, c1, p)
            || (q == p + 2 && s[p] == c0 && s[p + 1] == c1))) by {
        if has_token_upto(s, c0, c1, p) {
            let i = choose|i: int| token_at(s, i, c0, c1) && i < p;
            assert(token_at(s, i, c0, c1) && i < q + 1);
        }
        if q == p + 2 && s[p] == c0 && s[p + 1] == c1 {
            assert(token_at(s, p, c0, c1));
        }
        if has_token_upto(s, c0, c1, q + 1) {
            let i = choose|i: int| token_at(s, i, c0, c1) && i < q + 1;
            if i >= p {
                assert(s[i] == c0 && c0 != ' ');
                assert(i < q);
                if i > p {
                    assert(p <= i - 1 < q);
                    assert(s[i - 1] != ' ');
                    assert(false);
                }
                assert(i == p);
                assert(s[p + 1] == c1 && c1 != ' ');
                assert(p + 1 < q);
                if p + 2 == s.len() {
                    assert(q == p + 2);
                } else {
                    assert(s[p + 2] == ' ');
                    if q > p + 2 {
                        assert(p <= p + 2 < q);
                        assert(false);
                    }
                    assert(q == p + 2);
                }
            } else {
                assert(token_at(s, i, c0, c1) && i < p);
            }
        }
    }
}

/// After the last field, the bound covers the whole line and each flag
/// equals membership of its mnemonic among the fields.
#[verifier::rlimit(100)]
proof fn lemma_flags_done(f: VmFlags, s: Seq<char>)
    requires
        flags_inv(f, s, s.len() as int + 1),
    ensures
        f == vmflags_model(s),
{
    assert forall|c0: char, c1: char| (c0 != ' ' && c1 != ' ') implies
        (has_token_upto(s, c0, c1, s.len() as int + 1) == has_token(s, c0, c1)) by {
        if has_token_upto(s, c0, c1, s.len() as int + 1) {
            let i = choose|i: int| token_at(s, i, c0, c1) && i < s.len() as int + 1;
            assert(token_at(s, i, c0, c1));
        }
        if has_token(s, c0, c1) {
            let i = choose|i: int| token_at(s, i, c0, c1);
            assert(i + 2 <= s.len());
            assert(token_at(s, i, c0, c1) && i < s.len() as int + 1);
        }
    }
    lemma_token_membership(s, 'r', 'd');
    lemma_token_membership(s, 'w', 'r');
    lemma_token_membership(s, 'e', 'x');
    lemma_token_membership(s, 's', 'h');
    lemma_token_membership(s, 'm', 'r');
    lemma_token_membership(s, 'm', 'w');
    lemma_token_membership(s, 'm', 'e');
    lemma_token_membership(s, 'm', 's');
    lemma_token_membership(s, 'g', 'd');
    lemma_token_membership(s, 'p', 'f');
    lemma_token_membership(s, 'd', 'w');
    lemma_token_membership(s, 'l', 'o');
    lemma_token_membership(s, 'i', 'o');
    lemma_token_membership(s, 's', 'r');
    lemma_token_membership(s, 'r', 'r');
    lemma_token_membership(s, 'd', 'c');
    lemma_token_membership(s, 'd', 'e');
    lemma_token_membership(s, 'a', 'c');
    lemma_token_membership(s, 'n', 'r');
    lemma_token_membership(s, 'h', 't');
    lemma_token_membership(s, 's', 'f');
    lemma_token_membership(s, 'n', 'l');
    lemma_token_membership(s, 'a', 'r');
    lemma_token_membership(s, 'w', 'f');
    lemma_token_membership(s, 'd', 'd');
    lemma_token_membership(s, 's', 'd');
    lemma_token_membership(s, 'm', 'm');
    lemma_token_membership(s, 'h', 'g');
    lemma_token_membership(s, 'n', 'h');
    lemma_token_membership(s, 'm', 'g');
    lemma_token_membership(s, 'u', 'm');
    lemma_token_membership(s, 'u', 'w');
}

/// First space at or after `from`, or the end of the vector.
fn scan_space(v: &Vec<char>, from: usize) -> (q: usize)
    requires
        from <= v@.len(),
    ensures
        from <= q <= v@.len(),
        forall|j: int| from <= j < q ==> v@[j] != ' ',
        q == v@.len() || v@[q as int] == ' ',
{
    let n = v.len();
    let mut q = from;
    while q < n
        invariant
            from <= q <= n,
            n == v@.len(),
            forall|j: int| from <= j < q ==> v@[j] != ' ',
        decreases n - q,
    {
        if v[q] == ' ' {
            return q;
        }
        q = q + 1;
    }
    q
}

impl VmFlags {
    /// Decodes a flags line: the input is split on single spaces and every
    /// field that is a recognized mnemonic sets its flag. Any input is
    /// accepted; unknown fields, empty fields and repetitions are ignored.
    pub fn from_str(s: &str) -> (r: VmFlags)
        ensures
            r == vmflags_model(s@),
    {
        let v = crate::text::chars_of(s);
        let n = v.len();
        let mut flags = VmFlags {
            rd: false, wr: false, ex: false, sh: false, mr: false, mw: false,
            me: false, ms: false, gd: false, pf: false, dw: false, lo: false,
            io: false, sr: false, rr: false, dc: false, de: false, ac: false,
            nr: false, ht: false, sf: false, nl: false, ar: false, wf: false,
            dd: false, sd: false, mm: false, hg: false, nh: false, mg: false,
            um: false, uw: false,
        };
        proof {
            assert(!has_token_upto(s@, 'r', 'd', 0));
            assert(forall|c0: char, c1: char| !has_token_upto(s@, c0, c1, 0));
        }
        let mut p: usize = 0;
        loop
            invariant_except_break
                n == v@.len(),
                v@ == s@,
                p <= n,
                p == 0 || v@[p - 1] == ' ',
                flags_inv(flags, s@, p as int),
            ensures
                flags_inv(flags, s@, s@.len() as int + 1),
            decreases n - p,
        {
            let ghost f0 = flags;
            let q = scan_space(&v, p);
            if q - p == 2 {
                let c0 = v[p];
                let c1 = v[p + 1];
                flags = pair_flags(flags, c0, c1);
            }
            proof {
                lemma_flags_step(f0, flags, s@, p as int, q as int);
            }
            if q == n {
                break;
            }
            p = q + 1;
        }
        proof {
            lemma_flags_done(flags, s@);
        }
        flags
    }
}

/// The fields of the line that are recognized mnemonics.
pub open spec fn recognized_mnemonic(t: Seq<char>) -> bool {
    ||| t == seq!['r', 'd'] ||| t == seq!['w', 'r'] ||| t == seq!['e', 'x'] ||| t == seq!['s', 'h']
    ||| t == seq!['m', 'r'] ||| t == seq!['m', 'w'] ||| t == seq!['m', 'e'] ||| t == seq!['m', 's']
    ||| t == seq!['g', 'd'] ||| t == seq!['p', 'f'] ||| t == seq!['d', 'w'] ||| t == seq!['l', 'o']
    ||| t == seq!['i', 'o'] ||| t == seq!['s', 'r'] ||| t == seq!['r', 'r'] ||| t == seq!['d', 'c']
    ||| t == seq!['d', 'e'] ||| t == seq!['a', 'c'] ||| t == seq!['n', 'r'] ||| t == seq!['h', 't']
    ||| t == seq!['s', 'f'] ||| t == seq!['n', 'l'] ||| t == seq!['a', 'r'] ||| t == seq!['w', 'f']
    ||| t == seq!['d', 'd'] ||| t == seq!['s', 'd'] ||| t == seq!['m', 'm'] ||| t == seq!['h', 'g']
    ||| t == seq!['n', 'h'] ||| t == seq!['m', 'g'] ||| t == seq!['u', 'm'] ||| t == seq!['u', 'w']
}

/// Two flags lines whose fields agree on every recognized mnemonic decode
/// to the same flag set: reordering fields, repeating them, and adding or
/// removing unrecognized fields never changes the result.
pub proof fn law_vmflags_fields_decide(s1: Seq<char>, s2: Seq<char>)
    requires
        forall|t: Seq<char>| recognized_mnemonic(t) ==> (split_on(s1, ' ').contains(t) <==> split_on(
            s2,
            ' ',
        ).contains(t)),
    ensures
        vmflags_model(s1) == vmflags_model(s2),
{
    assert(recognized_mnemonic(seq!['r', 'd']));
    assert(recognized_mnemonic(seq!['w', 'r']));
    assert(recognized_mnemonic(seq!['e', 'x']));
    assert(recognized_mnemonic(seq!['s', 'h']));
    assert(recognized_mnemonic(seq!['m', 'r']));
    assert(recognized_mnemonic(seq!['m', 'w']));
    assert(recognized_mnemonic(seq!['m', 'e']));
    assert(recognized_mnemonic(seq!['m', 's']));
    assert(recognized_mnemonic(seq!['g', 'd']));
    assert(recognized_mnemonic(seq!['p', 'f']));
    assert(recognized_mnemonic(seq!['d', 'w']));
    assert(recognized_mnemonic(seq!['l', 'o']));
    assert(recognized_mnemonic(seq!['i', 'o']));
    assert(recognized_mnemonic(seq!['s', 'r']));
    assert(recognized_mnemonic(seq!['r', 'r']));
    assert(recognized_mnemonic(seq!['d', 'c']));
    assert(recognized_mnemonic(seq!['d', 'e']));
    assert(recognized_mnemonic(seq!['a', 'c']));
    assert(recognized_mnemonic(seq!['n', 'r']));
    assert(recognized_mnemonic(seq!['h', 't']));
    assert(recognized_mnemonic(seq!['s', 'f']));
    assert(recognized_mnemonic(seq!['n', 'l']));
    assert(recognized_mnemonic(seq!['a', 'r']));
    assert(recognized_mnemonic(seq!['w', 'f']));
    assert(recognized_mnemonic(seq!['d', 'd']));
    assert(recognized_mnemonic(seq!['s', 'd']));
    assert(recognized_mnemonic(seq!['m', 'm']));
    assert(recognized_mnemonic(seq!['h', 'g']));
    assert(recognized_mnemonic(seq!['n', 'h']));
    assert(recognized_mnemonic(seq!['m', 'g']));
    assert(recognized_mnemonic(seq!['u', 'm']));
    assert(recognized_mnemonic(seq!['u', 'w']));
}

} // verus!
