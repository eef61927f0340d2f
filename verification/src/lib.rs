//! Parser for the Linux per-process memory-mapping report (the `smaps`
//! text format): one record per virtual memory mapping, carrying the
//! address range, permissions, backing device and inode, a set of
//! memory-accounting counters, and the kernel VM flags.

use vstd::prelude::*;

pub mod details;
pub mod flags;
pub mod header;
pub mod perms;
pub mod text;

pub use crate::details::SMap;
pub use crate::flags::VmFlags;
pub use crate::header::Device;
pub use crate::header::Mapping;
pub use crate::perms::Permissions;

use crate::details::{detail_fold, init_model, line_views, line_fatal, lemma_fold_fatal, SMapModel};
use crate::header::{is_header, parse_header};
use crate::text::{split_on, trim_of};

verus! {

/// ASCII whitespace: the separator alphabet of the report's grammars.
pub open spec fn is_ws(c: char) -> bool {
    c == ' ' || c == '\t' || c == '\n' || c == '\r' || c == '\x0b' || c == '\x0c'
}

pub fn ws_char(c: char) -> (b: bool)
    ensures
        b == is_ws(c),
{
    c == ' ' || c == '\t' || c == '\n' || c == '\r' || c == '\x0b' || c == '\x0c'
}

/// The lines of a report, split on newline characters. Splitting never
/// yields an empty sequence: an empty text is one empty line.
pub open spec fn split_lines(s: Seq<char>) -> Seq<Seq<char>> {
    split_on(s, '\n')
}

pub proof fn lemma_split_lines_nonempty(t: Seq<char>)
    ensures
        split_lines(t).len() > 0,
{
    crate::text::lemma_find_sep(t, '\n');
}

/// Number of leading lines that are not mapping headers: the detail block
/// that belongs to the header just before them.
pub open spec fn detail_run(ls: Seq<Seq<char>>) -> int
    decreases ls.len(),
{
    if ls.len() == 0 || is_header(ls[0]) {
        0
    } else {
        1 + detail_run(ls.drop_first())
    }
}

pub proof fn lemma_detail_run_le(ls: Seq<Seq<char>>)
    ensures
        0 <= detail_run(ls) <= ls.len(),
    decreases ls.len(),
{
    if ls.len() > 0 && !is_header(ls[0]) {
        lemma_detail_run_le(ls.drop_first());
    }
}

pub proof fn lemma_detail_run_is(ls: Seq<Seq<char>>, q: int)
    requires
        0 <= q <= ls.len(),
        forall|j: int| 0 <= j < q ==> !is_header(ls[j]),
        q == ls.len() || is_header(ls[q]),
    ensures
        detail_run(ls) == q,
    decreases q,
{
    if q > 0 {
        assert(forall|j: int| 0 <= j < q - 1 ==> ls.drop_first()[j] == ls[j + 1]);
        lemma_detail_run_is(ls.drop_first(), q - 1);
    }
}

/// The records of a whole report. Every block boundary must be a valid
/// header; the lines after a header up to the next header form its detail
/// block. A failing header or a poisoned block yields nothing.
pub open spec fn parse_report(ls: Seq<Seq<char>>) -> Option<Seq<SMapModel>>
    decreases ls.len(),
    via parse_report_dec
{
    if ls.len() == 0 {
        Some(Seq::empty())
    } else {
        match parse_header(trim_of(ls[0])) {
            None => None,
            Some(m) => {
                let k = detail_run(ls.drop_first());
                match detail_fold(init_model(m), ls.subrange(1, 1 + k)) {
                    None => None,
                    Some(rec) => match parse_report(ls.skip(1 + k)) {
                        None => None,
                        Some(rest) => Some(seq![rec] + rest),
                    },
                }
            },
        }
    }
}

#[via_fn]
proof fn parse_report_dec(ls: Seq<Seq<char>>) {
    if ls.len() > 0 {
        lemma_detail_run_le(ls.drop_first());
    }
}

/// The models of a sequence of records.
pub open spec fn smap_views(v: Seq<SMap>) -> Seq<SMapModel> {
    v.map(|i: int, s: SMap| s@)
}

pub proof fn lemma_line_views_push(ls: Seq<&str>, l: &str)
    ensures
        line_views(ls.push(l)) =~= line_views(ls) + seq![l@],
{
    assert forall|t: int| 0 <= t < ls.len() + 1 implies line_views(ls.push(l))[t] == (line_views(
        ls,
    ) + seq![l@])[t] by {
        if t < ls.len() {
            assert(ls.push(l)[t] == ls[t]);
        } else {
            assert(ls.push(l)[t] == l);
        }
    }
}

/// The lines of the text, as slices, split on newline characters.
#[verifier::rlimit(100)]
fn split_into_lines<'a>(raw: &'a str) -> (lines: Vec<&'a str>)
    ensures
        line_views(lines@) == split_lines(raw@),
{
    let v = crate::text::chars_of(raw);
    let n = v.len();
    // Split the text into lines on newline characters.
    let mut lines: Vec<&str> = Vec::new();
    let mut p: usize = 0;
    proof {
        assert(line_views(lines@) =~= Seq::<Seq<char>>::empty());
        assert(raw@.skip(0) =~= raw@);
        assert(line_views(lines@) + split_on(raw@.skip(0), '\n') =~= split_on(raw@, '\n'));
    }
    loop
        invariant_except_break
            p <= n,
            n == v@.len(),
            v@ == raw@,
            split_lines(raw@) == line_views(lines@) + split_on(raw@.skip(p as int), '\n'),
        ensures
            split_lines(raw@) == line_views(lines@),
        decreases n - p,
    {
        let q = crate::text::scan_to(&v, p, '\n');
        let line = raw.substring_char(p, q);
        proof {
            let suf = raw@.skip(p as int);
            assert(forall|j: int| 0 <= j < q - p ==> suf[j] == raw@[p + j]);
            if q < n {
                assert(suf[q - p] == '\n');
            }
            crate::text::lemma_find_sep_is(suf, '\n', q - p);
            assert(line@ =~= suf.subrange(0, q - p));
        }
        if q == n {
            lines.push(line);
            proof {
                let suf = raw@.skip(p as int);
                assert(line@ =~= suf);
                assert(split_on(suf, '\n') == seq![suf]);
                assert(line_views(lines@) =~= line_views(lines@.drop_last()) + seq![line@]);
                assert(line_views(lines@) + Seq::<Seq<char>>::empty() =~= line_views(lines@));
                assert(split_lines(raw@) =~= line_views(lines@));
            }
            break;
        }
        lines.push(line);
        proof {
            let suf = raw@.skip(p as int);
            assert(split_on(suf, '\n') == seq![suf.subrange(0, q - p)] + split_on(
                suf.subrange(q - p + 1, suf.len() as int),
                '\n',
            ));
            assert(suf.subrange(q - p + 1, suf.len() as int) =~= raw@.skip(q + 1));
            assert(line_views(lines@) =~= line_views(lines@.drop_last()) + seq![line@]);
            assert(line_views(lines@) + split_on(raw@.skip(q + 1), '\n') =~= line_views(
                lines@.drop_last(),
            ) + split_on(raw@.skip(p as int), '\n'));
        }
        p = q + 1;
    }
    lines
}

/// Parses a whole report. Returns the records, in input order, exactly
/// when every block boundary is a valid header line and no detail line
/// poisons its block; any failure discards everything.
#[verifier::rlimit(100)]
pub fn from_str(raw: &str) -> (r: Option<Vec<SMap>>)
    ensures
        (r is Some) == (parse_report(split_lines(raw@)) is Some),
        r matches Some(v) ==> Some(smap_views(v@)) == parse_report(split_lines(raw@)),
{
    let lines = split_into_lines(raw);
    // Group the lines into header + detail-block records.
    let ghost lm = split_lines(raw@);
    proof {
        assert(lm.len() == lines@.len());
        assert(forall|t: int| 0 <= t < lm.len() ==> lm[t] == lines@[t]@);
    }
    let nl = lines.len();
    let mut res: Vec<SMap> = Vec::new();
    let mut i: usize = 0;
    proof {
        assert(lm.skip(0) =~= lm);
        assert(smap_views(res@) =~= Seq::<SMapModel>::empty());
        match parse_report(lm) {
            None => {},
            Some(rest) => {
                assert(smap_views(res@) + rest =~= rest);
            },
        }
    }
    while i < nl
        invariant
            i <= nl,
            nl == lines@.len(),
            lm == split_lines(raw@),
            lm.len() == nl as int,
            forall|t: int| 0 <= t < lm.len() ==> lm[t] == lines@[t]@,
            match parse_report(lm.skip(i as int)) {
                None => parse_report(lm) is None,
                Some(rest) => parse_report(lm) == Some(smap_views(res@) + rest),
            },
        decreases nl - i,
    {
        let ghost suf = lm.skip(i as int);
        proof {
            assert(suf[0] == lm[i as int]);
        }
        match Mapping::from_str(lines[i]) {
            None => {
                return None;
            },
            Some(map) => {
                let ghost m = parse_header(trim_of(lm[i as int]))->Some_0;
                proof {
                    assert(map@ == m);
                }
                // Collect the detail block: every following non-header line.
                let mut block: Vec<&str> = Vec::new();
                let mut j: usize = i + 1;
                loop
                    invariant_except_break
                        i + 1 <= j <= nl,
                        i < nl,
                        nl == lines@.len(),
                        lm.len() == nl as int,
                        forall|t: int| 0 <= t < lm.len() ==> lm[t] == lines@[t]@,
                        line_views(block@) == lm.subrange(i as int + 1, j as int),
                        forall|t: int| i + 1 <= t < j ==> !is_header(lm[t]),
                    ensures
                        i + 1 <= j <= nl,
                        line_views(block@) == lm.subrange(i as int + 1, j as int),
                        forall|t: int| i + 1 <= t < j ==> !is_header(lm[t]),
                        j == nl || is_header(lm[j as int]),
                    decreases nl - j,
                {
                    if j == nl {
                        break;
                    }
                    let probe = Mapping::from_str(lines[j]);
                    match probe {
                        Some(_) => {
                            break;
                        },
                        None => {},
                    }
                    let ghost bv = block@;
                    block.push(lines[j]);
                    proof {
                        assert(block@ == bv.push(lines@[j as int]));
                        lemma_line_views_push(bv, lines@[j as int]);
                        assert(lm.subrange(i as int + 1, j + 1) =~= lm.subrange(
                            i as int + 1,
                            j as int,
                        ) + seq![lm[j as int]]);
                        assert(line_views(block@) =~= lm.subrange(i as int + 1, j + 1));
                    }
                    j = j + 1;
                }
                let ghost k = j - i - 1;
                proof {
                    assert(forall|t: int| 0 <= t < k ==> #[trigger] lm.skip(i as int + 1)[t] == lm[i + 1 + t]);
                    lemma_detail_run_is(lm.skip(i as int + 1), k);
                    assert(suf.drop_first() =~= lm.skip(i as int + 1));
                    assert(detail_run(suf.drop_first()) == k);
                    assert(suf.subrange(1, 1 + k) =~= lm.subrange(i as int + 1, j as int));
                    assert(suf.skip(1 + k) =~= lm.skip(j as int));
                }
                match SMap::from_lines(map, block) {
                    None => {
                        return None;
                    },
                    Some(sm) => {
                        res.push(sm);
                        proof {
                            assert(smap_views(res@) =~= smap_views(res@.drop_last()) + seq![sm@]);
                            match parse_report(lm.skip(j as int)) {
                                None => {
                                    assert(parse_report(suf) is None);
                                },
                                Some(rest2) => {
                                    assert(parse_report(suf) == Some(seq![sm@] + rest2));
                                    assert(smap_views(res@.drop_last()) + (seq![sm@] + rest2)
                                        =~= smap_views(res@) + rest2);
                                },
                            }
                        }
                        i = j;
                    },
                }
            },
        }
    }
    proof {
        assert(lm.skip(nl as int) =~= Seq::<Seq<char>>::empty());
        assert(smap_views(res@) + Seq::<SMapModel>::empty() =~= smap_views(res@));
    }
    Some(res)
}

/// A text whose first line is not a valid mapping header yields no result,
/// whatever follows it.
pub proof fn law_bad_first_line(t: Seq<char>)
    requires
        !is_header(split_lines(t)[0]),
    ensures
        parse_report(split_lines(t)) is None,
{
    lemma_split_lines_nonempty(t);
}

/// A fatal detail line anywhere in the report poisons the whole parse:
/// even when the line belongs to a later mapping's block, nothing at all
/// is returned.
pub proof fn law_fatal_line_poisons_report(ls: Seq<Seq<char>>, i: int)
    requires
        0 <= i < ls.len(),
        !is_header(ls[i]),
        line_fatal(ls[i]),
    ensures
        parse_report(ls) is None,
    decreases ls.len(),
{
    match parse_header(trim_of(ls[0])) {
        None => {},
        Some(m) => {
            assert(is_header(ls[0]));
            assert(i >= 1);
            let k = detail_run(ls.drop_first());
            lemma_detail_run_le(ls.drop_first());
            if i <= k {
                assert(ls.subrange(1, 1 + k)[i - 1] == ls[i]);
                lemma_fold_fatal(init_model(m), ls.subrange(1, 1 + k), i - 1);
            } else {
                assert(ls.skip(1 + k)[i - 1 - k] == ls[i]);
                law_fatal_line_poisons_report(ls.skip(1 + k), i - 1 - k);
            }
        },
    }
}

} // verus!
