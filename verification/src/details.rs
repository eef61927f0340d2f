//! Detail-block parser: folds the run of `Key: Value` lines that follow a
//! mapping header into a statistics record. A line that does not split on
//! exactly one delimiter is skipped; a line whose value is not numeric after
//! suffix stripping poisons the whole record. Unrecognized keys are ignored
//! for forward compatibility.

use vstd::prelude::*;
use crate::flags::{VmFlags, vmflags_empty, vmflags_model};
use crate::header::{Mapping, MappingModel};
use crate::text::{dec_seq_val, find_sep, is_dec_digit, trim_of};

verus! {

/// The complete per-mapping record: the mapping itself, the accounting
/// counters (all in bytes where the report gives kB), and the VM flags.
/// Every counter defaults to zero and is set only if its key appears.
#[derive(Debug, Default, PartialEq)]
pub struct SMap {
    pub mapping: Mapping,
    pub size: u64,
    pub kernel_page_size: u64,
    pub mmu_page_size: u64,
    pub rss: u64,
    pub pss: u64,
    pub pss_dirty: u64,
    pub shared_clean: u64,
    pub shared_dirty: u64,
    pub private_clean: u64,
    pub private_dirty: u64,
    pub referenced: u64,
    pub anonymous: u64,
    pub ksm: u64,
    pub lazy_free: u64,
    pub anon_huge_pages: u64,
    pub shmem_huge_pages: u64,
    pub shmem_pmd_mapped: u64,
    pub file_pmd_mapped: u64,
    pub shared_hugetlb: u64,
    pub private_hugetlb: u64,
    pub swap: u64,
    pub swap_pss: u64,
    pub locked: u64,
    pub thp_eligible: u64,
    pub protection_key: u64,
    pub vm_flags: VmFlags,
}

/// The mathematical content of an `SMap`.
pub struct SMapModel {
    pub mapping: MappingModel,
    pub size: u64,
    pub kernel_page_size: u64,
    pub mmu_page_size: u64,
    pub rss: u64,
    pub pss: u64,
    pub pss_dirty: u64,
    pub shared_clean: u64,
    pub shared_dirty: u64,
    pub private_clean: u64,
    pub private_dirty: u64,
    pub referenced: u64,
    pub anonymous: u64,
    pub ksm: u64,
    pub lazy_free: u64,
    pub anon_huge_pages: u64,
    pub shmem_huge_pages: u64,
    pub shmem_pmd_mapped: u64,
    pub file_pmd_mapped: u64,
    pub shared_hugetlb: u64,
    pub private_hugetlb: u64,
    pub swap: u64,
    pub swap_pss: u64,
    pub locked: u64,
    pub thp_eligible: u64,
    pub protection_key: u64,
    pub vm_flags: VmFlags,
}

impl View for SMap {
    type V = SMapModel;

    open spec fn view(&self) -> SMapModel {
        SMapModel {
            mapping: self.mapping@,
            size: self.size,
            kernel_page_size: self.kernel_page_size,
            mmu_page_size: self.mmu_page_size,
            rss: self.rss,
            pss: self.pss,
            pss_dirty: self.pss_dirty,
            shared_clean: self.shared_clean,
            shared_dirty: self.shared_dirty,
            private_clean: self.private_clean,
            private_dirty: self.private_dirty,
            referenced: self.referenced,
            anonymous: self.anonymous,
            ksm: self.ksm,
            lazy_free: self.lazy_free,
            anon_huge_pages: self.anon_huge_pages,
            shmem_huge_pages: self.shmem_huge_pages,
            shmem_pmd_mapped: self.shmem_pmd_mapped,
            file_pmd_mapped: self.file_pmd_mapped,
            shared_hugetlb: self.shared_hugetlb,
            private_hugetlb: self.private_hugetlb,
            swap: self.swap,
            swap_pss: self.swap_pss,
            locked: self.locked,
            thp_eligible: self.thp_eligible,
            protection_key: self.protection_key,
            vm_flags: self.vm_flags,
        }
    }
}

/// The record before any detail line: every counter zero, no flags.
pub open spec fn init_model(m: MappingModel) -> SMapModel {
    SMapModel {
        mapping: m,
        size: 0,
        kernel_page_size: 0,
        mmu_page_size: 0,
        rss: 0,
        pss: 0,
        pss_dirty: 0,
        shared_clean: 0,
        shared_dirty: 0,
        private_clean: 0,
        private_dirty: 0,
        referenced: 0,
        anonymous: 0,
        ksm: 0,
        lazy_free: 0,
        anon_huge_pages: 0,
        shmem_huge_pages: 0,
        shmem_pmd_mapped: 0,
        file_pmd_mapped: 0,
        shared_hugetlb: 0,
        private_hugetlb: 0,
        swap: 0,
        swap_pss: 0,
        locked: 0,
        thp_eligible: 0,
        protection_key: 0,
        vm_flags: vmflags_empty(),
    }
}

/// Whether every character is a decimal digit.
pub open spec fn all_dec(s: Seq<char>) -> bool {
    forall|j: int| 0 <= j < s.len() ==> is_dec_digit(s[j])
}

/// The digits of a decimal token: a non-empty digit run, optionally led by
/// a plus sign, exactly the inputs the standard unsigned conversion takes.
pub open spec fn plus_digits(s: Seq<char>) -> Option<Seq<char>> {
    if s.len() >= 1 && s[0] == '+' {
        if s.len() >= 2 && all_dec(s.drop_first()) {
            Some(s.drop_first())
        } else {
            None
        }
    } else if s.len() >= 1 && all_dec(s) {
        Some(s)
    } else {
        None
    }
}

/// The value of a decimal token, if it is well formed and fits.
pub open spec fn dec_token_val(s: Seq<char>) -> Option<nat> {
    match plus_digits(s) {
        None => None,
        Some(d) => if dec_seq_val(d) <= u64::MAX {
            Some(dec_seq_val(d))
        } else {
            None
        },
    }
}

/// The numeric value of a detail line's value part: the part is trimmed;
/// a `kB` suffix is stripped and scales the value by 1024; the rest must
/// be a decimal token ending in a digit. A value that is malformed or does
/// not fit yields nothing, which poisons the whole record.
pub open spec fn detail_value(rest: Seq<char>) -> Option<u64> {
    let v1 = trim_of(rest);
    let kb = v1.len() >= 2 && v1[v1.len() - 2] == 'k' && v1[v1.len() - 1] == 'B';
    let v2 = if kb {
        trim_of(v1.take(v1.len() - 2))
    } else {
        v1
    };
    let mult: nat = if kb {
        1024
    } else {
        1
    };
    if v2.len() == 0 {
        None
    } else if !is_dec_digit(v2.last()) {
        None
    } else {
        match dec_token_val(v2) {
            None => None,
            Some(nv) => if nv * mult <= u64::MAX {
                Some((nv * mult) as u64)
            } else {
                None
            },
        }
    }
}

/// The record with the counter named by `key` set to `nv`; an unrecognized
/// key changes nothing. The key names are pairwise distinct, so at most one
/// counter changes.
pub open spec fn set_counter(r: SMapModel, key: Seq<char>, nv: u64) -> SMapModel {
    SMapModel {
        mapping: r.mapping,
        vm_flags: r.vm_flags,
        anon_huge_pages: if key == "AnonHugePages"@ {
            nv
        } else {
            r.anon_huge_pages
        },
        anonymous: if key == "Anonymous"@ {
            nv
        } else {
            r.anonymous
        },
        file_pmd_mapped: if key == "FilePmdMapped"@ {
            nv
        } else {
            r.file_pmd_mapped
        },
        ksm: if key == "KSM"@ {
            nv
        } else {
            r.ksm
        },
        kernel_page_size: if key == "KernelPageSize"@ {
            nv
        } else {
            r.kernel_page_size
        },
        lazy_free: if key == "LazyFree"@ {
            nv
        } else {
            r.lazy_free
        },
        locked: if key == "Locked"@ {
            nv
        } else {
            r.locked
        },
        mmu_page_size: if key == "MMUPageSize"@ {
            nv
        } else {
            r.mmu_page_size
        },
        private_clean: if key == "Private_Clean"@ {
            nv
        } else {
            r.private_clean
        },
        private_dirty: if key == "Private_Dirty"@ {
            nv
        } else {
            r.private_dirty
        },
        private_hugetlb: if key == "Private_Hugetlb"@ {
            nv
        } else {
            r.private_hugetlb
        },
        protection_key: if key == "ProtectionKey"@ {
            nv
        } else {
            r.protection_key
        },
        pss: if key == "Pss"@ {
            nv
        } else {
            r.pss
        },
        pss_dirty: if key == "Pss_Dirty"@ {
            nv
        } else {
            r.pss_dirty
        },
        referenced: if key == "Referenced"@ {
            nv
        } else {
            r.referenced
        },
        rss: if key == "Rss"@ {
            nv
        } else {
            r.rss
        },
        shared_clean: if key == "Shared_Clean"@ {
            nv
        } else {
            r.shared_clean
        },
        shared_dirty: if key == "Shared_Dirty"@ {
            nv
        } else {
            r.shared_dirty
        },
        shared_hugetlb: if key == "Shared_Hugetlb"@ {
            nv
        } else {
            r.shared_hugetlb
        },
        shmem_huge_pages: if key == "ShmemHugePages"@ {
            nv
        } else {
            r.shmem_huge_pages
        },
        shmem_pmd_mapped: if key == "ShmemPmdMapped"@ {
            nv
        } else {
            r.shmem_pmd_mapped
        },
        size: if key == "Size"@ {
            nv
        } else {
            r.size
        },
        swap: if key == "Swap"@ {
            nv
        } else {
            r.swap
        },
        swap_pss: if key == "SwapPss"@ {
            nv
        } else {
            r.swap_pss
        },
        thp_eligible: if key == "THPeligible"@ {
            nv
        } else {
            r.thp_eligible
        },
    }
}

/// The keys that name a counter of the record.
pub open spec fn recognized_key(key: Seq<char>) -> bool {
    ||| key == "AnonHugePages"@
    ||| key == "Anonymous"@
    ||| key == "FilePmdMapped"@
    ||| key == "KSM"@
    ||| key == "KernelPageSize"@
    ||| key == "LazyFree"@
    ||| key == "Locked"@
    ||| key == "MMUPageSize"@
    ||| key == "Private_Clean"@
    ||| key == "Private_Dirty"@
    ||| key == "Private_Hugetlb"@
    ||| key == "ProtectionKey"@
    ||| key == "Pss"@
    ||| key == "Pss_Dirty"@
    ||| key == "Referenced"@
    ||| key == "Rss"@
    ||| key == "Shared_Clean"@
    ||| key == "Shared_Dirty"@
    ||| key == "Shared_Hugetlb"@
    ||| key == "ShmemHugePages"@
    ||| key == "ShmemPmdMapped"@
    ||| key == "Size"@
    ||| key == "Swap"@
    ||| key == "SwapPss"@
    ||| key == "THPeligible"@
}

/// One detail line applied to the record. A line without exactly one
/// delimiter is skipped; the flags key reroutes the remainder of the line
/// to the VM-flag decoder; every other key carries a numeric value whose
/// malformation poisons the record.
pub open spec fn apply_detail_line(r: SMapModel, line: Seq<char>) -> Option<SMapModel> {
    let f = find_sep(line, ':');
    if !(f < line.len() && find_sep(line.subrange(f + 1, line.len() as int), ':') == line.len() - f
        - 1) {
        Some(r)
    } else {
        let key = line.subrange(0, f);
        let rest = line.subrange(f + 1, line.len() as int);
        if key == "VmFlags"@ {
            Some(SMapModel { vm_flags: vmflags_model(rest), ..r })
        } else {
            match detail_value(rest) {
                None => None,
                Some(nv) => Some(set_counter(r, key, nv)),
            }
        }
    }
}

/// A line that poisons any record it is applied to: it splits on exactly
/// one delimiter, is not the flags line, and its value is malformed.
pub open spec fn line_fatal(line: Seq<char>) -> bool {
    let f = find_sep(line, ':');
    &&& f < line.len()
    &&& find_sep(line.subrange(f + 1, line.len() as int), ':') == line.len() - f - 1
    &&& line.subrange(0, f) != "VmFlags"@
    &&& detail_value(line.subrange(f + 1, line.len() as int)) is None
}

/// Whether a detail line fails is decided by the line alone, never by the
/// record it is applied to.
pub proof fn lemma_fatal_line(r: SMapModel, line: Seq<char>)
    ensures
        (apply_detail_line(r, line) is None) == line_fatal(line),
{
}

/// The record after a run of detail lines, applied in order, or nothing
/// once any line poisons it.
pub open spec fn detail_fold(r: SMapModel, ls: Seq<Seq<char>>) -> Option<SMapModel>
    decreases ls.len(),
{
    if ls.len() == 0 {
        Some(r)
    } else {
        match apply_detail_line(r, ls[0]) {
            None => None,
            Some(r2) => detail_fold(r2, ls.drop_first()),
        }
    }
}

/// A fatal line anywhere in the run poisons the fold, whatever precedes
/// or follows it.
pub proof fn lemma_fold_fatal(r: SMapModel, ls: Seq<Seq<char>>, i: int)
    requires
        0 <= i < ls.len(),
        line_fatal(ls[i]),
    ensures
        detail_fold(r, ls) is None,
    decreases ls.len(),
{
    if i == 0 {
        lemma_fatal_line(r, ls[0]);
    } else {
        match apply_detail_line(r, ls[0]) {
            None => {},
            Some(r2) => {
                lemma_fold_fatal(r2, ls.drop_first(), i - 1);
            },
        }
    }
}

/// The character views of a sequence of line slices.
pub open spec fn line_views(ls: Seq<&str>) -> Seq<Seq<char>> {
    ls.map(|i: int, l: &str| l@)
}

/// The numeric value of one value part, handed over as its characters.
#[verifier::rlimit(100)]
#[verifier::loop_isolation(false)]
fn parse_value(rv: &Vec<char>) -> (r: Option<u64>)
    ensures
        r == detail_value(rv@),
{
    let (t0, t1) = crate::text::trim_bounds(rv);
    let ghost v1 = trim_of(rv@);
    let kb = t1 - t0 >= 2 && rv[t1 - 2] == 'k' && rv[t1 - 1] == 'B';
    let mut t2 = t1;
    if kb {
        t2 = t1 - 2;
        while t2 > t0 && crate::ws_char(rv[t2 - 1])
            invariant
                t0 <= t2 <= t1 - 2,
                forall|j: int| t2 <= j < t1 - 2 ==> crate::is_ws(rv@[j]),
            decreases t2,
        {
            t2 = t2 - 1;
        }
        proof {
            let u = v1.take(v1.len() - 2);
            assert(u =~= rv@.subrange(t0 as int, t1 - 2));
            if t2 == t0 {
                assert(trim_of(u) =~= rv@.subrange(t0 as int, t2 as int)) by {
                    if u.len() > 0 {
                        crate::text::lemma_ws_end_is(u, 0, u.len() as int);
                    }
                }
            } else {
                assert(!crate::is_ws(u[0]));
                crate::text::lemma_ws_end_is(u, 0, 0);
                crate::text::lemma_ws_begin_is(u, u.len() as int, t2 - t0);
                assert(trim_of(u) =~= rv@.subrange(t0 as int, t2 as int));
            }
        }
    }
    let ghost v2 = if kb { trim_of(v1.take(v1.len() - 2)) } else { v1 };
    proof {
        assert(v2 == rv@.subrange(t0 as int, t2 as int));
    }
    if t2 == t0 {
        // Empty value after stripping.
        return None;
    }
    if !crate::text::dec_digit_char(rv[t2 - 1]) {
        // The value does not end in a digit.
        return None;
    }
    let startd = if rv[t0] == '+' {
        t0 + 1
    } else {
        t0
    };
    if startd == t2 {
        return None;
    }
    let dend = crate::text::scan_dec(rv, startd);
    proof {
        let d = rv@.subrange(startd as int, t2 as int);
        if dend >= t2 {
            assert(forall|j: int| 0 <= j < d.len() ==> is_dec_digit(d[j]));
        }
    }
    if dend < t2 {
        // A non-digit inside the value.
        proof {
            let d = rv@.subrange(startd as int, t2 as int);
            assert(!is_dec_digit(d[dend - startd]));
            assert(plus_digits(v2) is None) by {
                if startd == t0 + 1 {
                    assert(v2.drop_first() =~= d);
                } else {
                    assert(v2 =~= d);
                }
            }
        }
        return None;
    }
    let nv = match crate::text::parse_dec_u64(rv, startd, t2) {
        Some(x) => x,
        None => {
            proof {
                let d = rv@.subrange(startd as int, t2 as int);
                if startd == t0 + 1 {
                    assert(v2.drop_first() =~= d);
                } else {
                    assert(v2 =~= d);
                }
            }
            return None;
        },
    };
    proof {
        let d = rv@.subrange(startd as int, t2 as int);
        if startd == t0 + 1 {
            assert(v2.drop_first() =~= d);
        } else {
            assert(v2 =~= d);
        }
        assert(dec_token_val(v2) == Some(nv as nat));
    }
    if kb {
        if nv > u64::MAX / 1024 {
            proof {
                vstd::arithmetic::div_mod::lemma_fundamental_div_mod(u64::MAX as int, 1024);
                assert(nv * 1024 > u64::MAX);
            }
            return None;
        }
        proof {
            vstd::arithmetic::div_mod::lemma_fundamental_div_mod(u64::MAX as int, 1024);
            assert(nv * 1024 <= (u64::MAX / 1024) * 1024);
        }
        Some(nv * 1024)
    } else {
        Some(nv)
    }
}

/// The record with the counter named by `lv[0..c1]` set to `value`.
#[verifier::rlimit(100)]
fn set_counter_exec(sm: SMap, lv: &Vec<char>, c1: usize, value: u64) -> (out: SMap)
    requires
        c1 <= lv@.len(),
    ensures
        out@ == set_counter(sm@, lv@.subrange(0, c1 as int), value),
{
    let m_anon_huge_pages = crate::text::range_eq_str(lv, 0, c1, "AnonHugePages");
    let m_anonymous = crate::text::range_eq_str(lv, 0, c1, "Anonymous");
    let m_file_pmd_mapped = crate::text::range_eq_str(lv, 0, c1, "FilePmdMapped");
    let m_ksm = crate::text::range_eq_str(lv, 0, c1, "KSM");
    let m_kernel_page_size = crate::text::range_eq_str(lv, 0, c1, "KernelPageSize");
    let m_lazy_free = crate::text::range_eq_str(lv, 0, c1, "LazyFree");
    let m_locked = crate::text::range_eq_str(lv, 0, c1, "Locked");
    let m_mmu_page_size = crate::text::range_eq_str(lv, 0, c1, "MMUPageSize");
    let m_private_clean = crate::text::range_eq_str(lv, 0, c1, "Private_Clean");
    let m_private_dirty = crate::text::range_eq_str(lv, 0, c1, "Private_Dirty");
    let m_private_hugetlb = crate::text::range_eq_str(lv, 0, c1, "Private_Hugetlb");
    let m_protection_key = crate::text::range_eq_str(lv, 0, c1, "ProtectionKey");
    let m_pss = crate::text::range_eq_str(lv, 0, c1, "Pss");
    let m_pss_dirty = crate::text::range_eq_str(lv, 0, c1, "Pss_Dirty");
    let m_referenced = crate::text::range_eq_str(lv, 0, c1, "Referenced");
    let m_rss = crate::text::range_eq_str(lv, 0, c1, "Rss");
    let m_shared_clean = crate::text::range_eq_str(lv, 0, c1, "Shared_Clean");
    let m_shared_dirty = crate::text::range_eq_str(lv, 0, c1, "Shared_Dirty");
    let m_shared_hugetlb = crate::text::range_eq_str(lv, 0, c1, "Shared_Hugetlb");
    let m_shmem_huge_pages = crate::text::range_eq_str(lv, 0, c1, "ShmemHugePages");
    let m_shmem_pmd_mapped = crate::text::range_eq_str(lv, 0, c1, "ShmemPmdMapped");
    let m_size = crate::text::range_eq_str(lv, 0, c1, "Size");
    let m_swap = crate::text::range_eq_str(lv, 0, c1, "Swap");
    let m_swap_pss = crate::text::range_eq_str(lv, 0, c1, "SwapPss");
    let m_thp_eligible = crate::text::range_eq_str(lv, 0, c1, "THPeligible");
    SMap {
        mapping: sm.mapping,
        vm_flags: sm.vm_flags,
        anon_huge_pages: if m_anon_huge_pages { value } else { sm.anon_huge_pages },
        anonymous: if m_anonymous { value } else { sm.anonymous },
        file_pmd_mapped: if m_file_pmd_mapped { value } else { sm.file_pmd_mapped },
        ksm: if m_ksm { value } else { sm.ksm },
        kernel_page_size: if m_kernel_page_size { value } else { sm.kernel_page_size },
        lazy_free: if m_lazy_free { value } else { sm.lazy_free },
        locked: if m_locked { value } else { sm.locked },
        mmu_page_size: if m_mmu_page_size { value } else { sm.mmu_page_size },
        private_clean: if m_private_clean { value } else { sm.private_clean },
        private_dirty: if m_private_dirty { value } else { sm.private_dirty },
        private_hugetlb: if m_private_hugetlb { value } else { sm.private_hugetlb },
        protection_key: if m_protection_key { value } else { sm.protection_key },
        pss: if m_pss { value } else { sm.pss },
        pss_dirty: if m_pss_dirty { value } else { sm.pss_dirty },
        referenced: if m_referenced { value } else { sm.referenced },
        rss: if m_rss { value } else { sm.rss },
        shared_clean: if m_shared_clean { value } else { sm.shared_clean },
        shared_dirty: if m_shared_dirty { value } else { sm.shared_dirty },
        shared_hugetlb: if m_shared_hugetlb { value } else { sm.shared_hugetlb },
        shmem_huge_pages: if m_shmem_huge_pages { value } else { sm.shmem_huge_pages },
        shmem_pmd_mapped: if m_shmem_pmd_mapped { value } else { sm.shmem_pmd_mapped },
        size: if m_size { value } else { sm.size },
        swap: if m_swap { value } else { sm.swap },
        swap_pss: if m_swap_pss { value } else { sm.swap_pss },
        thp_eligible: if m_thp_eligible { value } else { sm.thp_eligible },
    }
}

/// Applies one detail line to the record.
#[verifier::rlimit(100)]
fn apply_line(sm: SMap, line: &str) -> (r: Option<SMap>)
    ensures
        (r is Some) == (apply_detail_line(sm@, line@) is Some),
        r matches Some(x) ==> Some(x@) == apply_detail_line(sm@, line@),
{
    let lv = crate::text::chars_of(line);
    let n = lv.len();
    let c1 = crate::text::scan_to(&lv, 0, ':');
    proof {
        crate::text::lemma_find_sep_is(lv@, ':', c1 as int);
    }
    if c1 == n {
        // No delimiter: the line is skipped.
        return Some(sm);
    }
    let c2 = crate::text::scan_to(&lv, c1 + 1, ':');
    let ghost rest = line@.subrange(c1 + 1, n as int);
    proof {
        assert(forall|j: int| 0 <= j < c2 - c1 - 1 ==> rest[j] == lv@[c1 + 1 + j]);
        if c2 < n {
            assert(rest[c2 - c1 - 1] == ':');
        }
        crate::text::lemma_find_sep_is(rest, ':', c2 - c1 - 1);
    }
    if c2 < n {
        // More than one delimiter: the line is skipped.
        return Some(sm);
    }
    if crate::text::range_eq_str(&lv, 0, c1, "VmFlags") {
        let rest_str = line.substring_char(c1 + 1, n);
        proof {
            assert(rest_str@ =~= rest);
        }
        let mut out = sm;
        out.vm_flags = VmFlags::from_str(rest_str);
        return Some(out);
    }
    // Numeric value: trim, strip the byte-count suffix, convert.
    let rv = crate::text::copy_range(&lv, c1 + 1, n);
    proof {
        assert(rv@ == rest);
    }
    let value = match parse_value(&rv) {
        Some(x) => x,
        None => {
            // The value is malformed: the record is poisoned.
            return None;
        },
    };
    Some(set_counter_exec(sm, &lv, c1, value))
}

impl SMap {
    /// Folds the detail lines that follow a header into the record for
    /// `mapping`. Returns the record exactly when no line poisons it:
    /// lines without exactly one delimiter are skipped, the flags line is
    /// decoded, recognized keys set their counters in order of appearance,
    /// and unrecognized keys are ignored.
    #[verifier::loop_isolation(false)]
    pub fn from_lines(mapping: Mapping, lines: Vec<&str>) -> (r: Option<SMap>)
        ensures
            (r is Some) == (detail_fold(init_model(mapping@), line_views(lines@)) is Some),
            r matches Some(sm) ==> Some(sm@) == detail_fold(
                init_model(mapping@),
                line_views(lines@),
            ),
    {
        let ghost lsv = line_views(lines@);
        let ghost m0 = mapping@;
        let mut sm = SMap {
            mapping,
            size: 0,
            kernel_page_size: 0,
            mmu_page_size: 0,
            rss: 0,
            pss: 0,
            pss_dirty: 0,
            shared_clean: 0,
            shared_dirty: 0,
            private_clean: 0,
            private_dirty: 0,
            referenced: 0,
            anonymous: 0,
            ksm: 0,
            lazy_free: 0,
            anon_huge_pages: 0,
            shmem_huge_pages: 0,
            shmem_pmd_mapped: 0,
            file_pmd_mapped: 0,
            shared_hugetlb: 0,
            private_hugetlb: 0,
            swap: 0,
            swap_pss: 0,
            locked: 0,
            thp_eligible: 0,
            protection_key: 0,
            vm_flags: VmFlags {
                rd: false, wr: false, ex: false, sh: false, mr: false, mw: false,
                me: false, ms: false, gd: false, pf: false, dw: false, lo: false,
                io: false, sr: false, rr: false, dc: false, de: false, ac: false,
                nr: false, ht: false, sf: false, nl: false, ar: false, wf: false,
                dd: false, sd: false, mm: false, hg: false, nh: false, mg: false,
                um: false, uw: false,
            },
        };
        proof {
            assert(sm@ == init_model(m0));
            assert(lsv.skip(0) =~= lsv);
        }
        let n = lines.len();
        let mut idx: usize = 0;
        while idx < n
            invariant
                idx <= n,
                detail_fold(init_model(m0), lsv) == detail_fold(
                    sm@,
                    lsv.skip(idx as int),
                ),
            decreases n - idx,
        {
            let ghost sm0 = sm@;
            let line: &str = lines[idx];
            let res = apply_line(sm, line);
            proof {
                assert(lsv.skip(idx as int)[0] == line@);
                assert(lsv.skip(idx as int).drop_first() =~= lsv.skip(idx as int + 1));
            }
            match res {
                None => {
                    return None;
                },
                Some(x) => {
                    sm = x;
                },
            }
            idx = idx + 1;
        }
        proof {
            assert(lsv.skip(n as int) =~= Seq::<Seq<char>>::empty());
        }
        Some(sm)
    }
}

/// A value with the byte-count suffix decodes to exactly 1024 times its
/// numeric prefix; the same value without the suffix decodes to its
/// literal numeric value.
pub proof fn law_kb_suffix(digits: Seq<char>)
    requires
        digits.len() > 0,
        forall|j: int| 0 <= j < digits.len() ==> is_dec_digit(digits[j]),
        dec_seq_val(digits) * 1024 <= u64::MAX,
    ensures
        detail_value(digits + seq![' ', 'k', 'B']) == Some((dec_seq_val(digits) * 1024) as u64),
        detail_value(digits) == Some(dec_seq_val(digits) as u64),
{
    let s = digits + seq![' ', 'k', 'B'];
    let dl = digits.len() as int;
    assert(s.len() == dl + 3);
    assert(s[dl] == ' ' && s[dl + 1] == 'k' && s[dl + 2] == 'B');
    assert(forall|j: int| 0 <= j < dl ==> s[j] == digits[j]);
    assert(is_dec_digit(s[0]) && !crate::is_ws(s[0]));
    assert(!crate::is_ws(s[s.len() - 1]));
    crate::text::lemma_ws_end_is(s, 0, 0);
    crate::text::lemma_ws_begin_is(s, s.len() as int, s.len() as int);
    assert(trim_of(s) =~= s);
    let u = s.take(dl + 1);
    assert(u =~= digits + seq![' ']);
    crate::text::lemma_ws_end_is(u, 0, 0);
    crate::text::lemma_ws_begin_is(u, u.len() as int, dl);
    assert(trim_of(u) =~= digits);
    assert(plus_digits(digits) == Some(digits));
    assert(dec_seq_val(digits) <= u64::MAX) by {
        assert(dec_seq_val(digits) * 1024 >= dec_seq_val(digits)) by (nonlinear_arith);
    }
    assert(detail_value(s) == Some((dec_seq_val(digits) * 1024) as u64));
    // Without the suffix.
    crate::text::lemma_ws_end_is(digits, 0, 0);
    crate::text::lemma_ws_begin_is(digits, dl, dl);
    assert(trim_of(digits) =~= digits);
    assert(digits[dl - 1] != 'B');
    assert(detail_value(digits) == Some(dec_seq_val(digits) as u64));
}

/// A detail line with an unrecognized key and a well-formed value is
/// ignored: it changes no field and does not fail.
pub proof fn law_unknown_key_ignored(r: SMapModel, line: Seq<char>)
    requires
        ({
            let f = find_sep(line, ':');
            &&& f < line.len()
            &&& find_sep(line.subrange(f + 1, line.len() as int), ':') == line.len() - f - 1
            &&& !recognized_key(line.subrange(0, f))
            &&& line.subrange(0, f) != "VmFlags"@
            &&& detail_value(line.subrange(f + 1, line.len() as int)) is Some
        }),
    ensures
        apply_detail_line(r, line) == Some(r),
{
}

} // verus!
