//! Mapping-header parser: matches one line of the report against the fixed
//! header grammar
//! `start-end  perms  offset  major:minor  inode  [pathname]`
//! and extracts the address range, permissions, offset, device, inode and
//! optional pathname.

use vstd::prelude::*;
use crate::perms::{Permissions, perms_model};
use crate::is_ws;
use crate::text::{dec_end, dec_seq_val, hex_end, hex_seq_val, perm_end, trim_of, ws_end};

verus! {

/// The backing block device of a file-backed mapping; zero/zero for an
/// anonymous mapping.
#[derive(Clone, Copy, Debug, Default, PartialEq)]
pub struct Device {
    pub major: u64,
    pub minor: u64,
}

/// One virtual memory mapping, as described by a header line.
#[derive(Debug, Default, PartialEq)]
pub struct Mapping {
    pub start: u64,
    pub end: u64,
    pub perms: Permissions,
    pub offset: usize,
    pub device: Device,
    pub inode: u64,
    pub pathname: Option<String>,
}

/// The mathematical content of a `Mapping`: the pathname as a character
/// sequence, everything else as the plain values it already is.
pub struct MappingModel {
    pub start: u64,
    pub end: u64,
    pub perms: Permissions,
    pub offset: usize,
    pub device: Device,
    pub inode: u64,
    pub pathname: Option<Seq<char>>,
}

impl View for Mapping {
    type V = MappingModel;

    open spec fn view(&self) -> MappingModel {
        MappingModel {
            start: self.start,
            end: self.end,
            perms: self.perms,
            offset: self.offset,
            device: self.device,
            inode: self.inode,
            pathname: match self.pathname {
                Option::None => Option::None,
                Option::Some(p) => Option::Some(p@),
            },
        }
    }
}

/// The numeric fields of a matched header, if each fits its target type.
/// Overflow of any field makes the whole line unparseable, exactly as a
/// failed integer conversion does.
pub open spec fn header_fields(
    t: Seq<char>,
    a: int,
    b: int,
    c: int,
    d: int,
    e: int,
    f: int,
    g: int,
    h: int,
    i: int,
    j: int,
    k: int,
    path: Option<Seq<char>>,
) -> Option<MappingModel> {
    let sv = hex_seq_val(t.subrange(0, a));
    let ev = hex_seq_val(t.subrange(a + 1, b));
    let ov = hex_seq_val(t.subrange(e, f));
    let majv = hex_seq_val(t.subrange(g, h));
    let minv = hex_seq_val(t.subrange(h + 1, i));
    let inv = dec_seq_val(t.subrange(j, k));
    if sv > u64::MAX || ev > u64::MAX || ov > usize::MAX || majv > u64::MAX || minv > u64::MAX
        || inv > u64::MAX {
        None
    } else {
        Some(
            MappingModel {
                start: sv as u64,
                end: ev as u64,
                perms: perms_model(t.subrange(c, d)),
                offset: ov as usize,
                device: Device { major: majv as u64, minor: minv as u64 },
                inode: inv as u64,
                pathname: path,
            },
        )
    }
}

/// The header grammar, applied to an already-trimmed line. Fields are the
/// maximal runs of their alphabets, separated by runs of whitespace; the
/// optional pathname is everything after the whitespace that follows the
/// inode, and may itself contain spaces. A line that does not have this
/// shape, or whose numeric fields do not fit, yields nothing.
pub open spec fn parse_header(t: Seq<char>) -> Option<MappingModel> {
    let a = hex_end(t, 0);
    let b = hex_end(t, a + 1);
    let c = ws_end(t, b);
    let d = perm_end(t, c);
    let e = ws_end(t, d);
    let f = hex_end(t, e);
    let g = ws_end(t, f);
    let h = hex_end(t, g);
    let i = hex_end(t, h + 1);
    let j = ws_end(t, i);
    let k = dec_end(t, j);
    if a == 0 || a >= t.len() || t[a] != '-' || b == a + 1 || c == b || d == c || e == d || f == e
        || g == f || h == g || h >= t.len() || t[h] != ':' || i == h + 1 || j == i || k == j {
        None
    } else if k == t.len() {
        header_fields(t, a, b, c, d, e, f, g, h, i, j, k, None)
    } else {
        let w = ws_end(t, k);
        if w == k {
            None
        } else {
            let path = t.subrange(w, t.len() as int);
            if path.contains('\n') {
                None
            } else {
                header_fields(t, a, b, c, d, e, f, g, h, i, j, k, Some(path))
            }
        }
    }
}

/// Whether a line of the report is a mapping header.
pub open spec fn is_header(line: Seq<char>) -> bool {
    parse_header(trim_of(line)) is Some
}

impl Mapping {
    /// Parses one header line, after trimming surrounding whitespace.
    /// Returns the mapping exactly when the line matches the header grammar
    /// and every numeric field fits its type, and nothing otherwise.
    #[verifier::rlimit(100)]
    #[verifier::loop_isolation(false)]
    pub fn from_str(s: &str) -> (r: Option<Mapping>)
        ensures
            r is Some <==> parse_header(trim_of(s@)) is Some,
            r matches Some(m) ==> Some(m@) == parse_header(trim_of(s@)),
    {
        let v = crate::text::chars_of(s);
        let (lo, hi) = crate::text::trim_bounds(&v);
        let t = crate::text::copy_range(&v, lo, hi);
        let ghost tv = trim_of(s@);
        proof {
            assert(t@ == tv);
        }
        let n = t.len();
        let a = crate::text::scan_hex(&t, 0);
        if a == 0 || a == n {
            return None;
        }
        if t[a] != '-' {
            return None;
        }
        let b = crate::text::scan_hex(&t, a + 1);
        if b == a + 1 {
            return None;
        }
        let c = crate::text::scan_ws(&t, b);
        if c == b {
            return None;
        }
        let d = crate::text::scan_perm(&t, c);
        if d == c {
            return None;
        }
        let e = crate::text::scan_ws(&t, d);
        if e == d {
            return None;
        }
        let f = crate::text::scan_hex(&t, e);
        if f == e {
            return None;
        }
        let g = crate::text::scan_ws(&t, f);
        if g == f {
            return None;
        }
        let h = crate::text::scan_hex(&t, g);
        if h == g || h == n {
            return None;
        }
        if t[h] != ':' {
            return None;
        }
        let i = crate::text::scan_hex(&t, h + 1);
        if i == h + 1 {
            return None;
        }
        let j = crate::text::scan_ws(&t, i);
        if j == i {
            return None;
        }
        let k = crate::text::scan_dec(&t, j);
        if k == j {
            return None;
        }
        // The pathname, when one follows the inode.
        let pathname: Option<String>;
        if k == n {
            pathname = None;
        } else {
            let w = crate::text::scan_ws(&t, k);
            if w == k {
                return None;
            }
            let mut x = w;
            while x < n
                invariant
                    w <= x <= n,
                    n == t@.len(),
                    forall|y: int| w <= y < x ==> t@[y] != '\n',
                decreases n - x,
            {
                if t[x] == '\n' {
                    proof {
                        assert(t@.subrange(w as int, n as int)[x - w] == '\n');
                        assert(t@.subrange(w as int, n as int).contains('\n'));
                    }
                    return None;
                }
                x = x + 1;
            }
            proof {
                let path = t@.subrange(w as int, n as int);
                assert(forall|y: int| 0 <= y < path.len() ==> path[y] == t@[w + y]);
                assert(!path.contains('\n'));
            }
            let p = s.substring_char(lo + w, hi);
            proof {
                assert(p@ =~= t@.subrange(w as int, n as int));
            }
            pathname = Some(String::from_str(p));
        }
        // Numeric fields; a value that does not fit fails the parse.
        let start = match crate::text::parse_hex_u64(&t, 0, a) {
            Some(x) => x,
            None => { return None; },
        };
        let end = match crate::text::parse_hex_u64(&t, a + 1, b) {
            Some(x) => x,
            None => { return None; },
        };
        let perm_str = s.substring_char(lo + c, lo + d);
        proof {
            assert(perm_str@ =~= t@.subrange(c as int, d as int));
        }
        let perms = Permissions::from_str(perm_str);
        let offset_v = match crate::text::parse_hex_u64(&t, e, f) {
            Some(x) => x,
            None => { return None; },
        };
        if offset_v > usize::MAX as u64 {
            return None;
        }
        let offset = offset_v as usize;
        let major = match crate::text::parse_hex_u64(&t, g, h) {
            Some(x) => x,
            None => { return None; },
        };
        let minor = match crate::text::parse_hex_u64(&t, h + 1, i) {
            Some(x) => x,
            None => { return None; },
        };
        let inode = match crate::text::parse_dec_u64(&t, j, k) {
            Some(x) => x,
            None => { return None; },
        };
        Some(
            Mapping {
                start,
                end,
                perms,
                offset,
                device: Device { major, minor },
                inode,
                pathname,
            },
        )
    }
}

} // verus!
