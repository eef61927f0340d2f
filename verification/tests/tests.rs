use smaps::{from_str, Device, Mapping, Permissions, SMap, VmFlags};

#[test]
fn test_vmflags_from_str() {
    // No flags enabled should parse correctly
    assert_eq!(VmFlags::from_str(""), Default::default());

    // Unknown flags should be ignored
    assert_eq!(VmFlags::from_str("a b c d"), Default::default());

    // Check enabling some subset of flags
    let mut flags: VmFlags = Default::default();
    flags.rd = true;
    flags.de = true;
    flags.uw = true;
    assert_eq!(VmFlags::from_str("rd de uw"), flags);

    // Check that the order of flags doesn't matter
    let mut flags: VmFlags = Default::default();
    flags.rd = true;
    flags.de = true;
    flags.uw = true;
    assert_eq!(VmFlags::from_str("uw rd de"), flags);
}

#[test]
fn test_mapping_from_str() {
    assert_eq!(Mapping::from_str(""), None);
    assert_eq!(Mapping::from_str("    \n   "), None);
    let mut perms: Permissions = Default::default();
    perms.read(true);
    perms.write(true);
    perms.private(true);
    assert_eq!(
        Mapping::from_str("00e24000-011f7000 rw-p 00000000 00:00 0           [heap]"),
        Some(Mapping {
            start: 0x00e24000,
            end: 0x011f7000,
            perms,
            offset: 0,
            device: Device { major: 0, minor: 0 },
            inode: 0,
            pathname: Some("[heap]".to_string())
        })
    );

    let mut perms: Permissions = Default::default();
    perms.read(true);
    perms.write(true);
    perms.private(true);

    assert_eq!(
        Mapping::from_str("35b1a21000-35b1a22000 rw-p abcd ff:10 0"),
        Some(Mapping {
            start: 0x35b1a21000,
            end: 0x35b1a22000,
            perms,
            offset: 0xabcd,
            device: Device {
                major: 0xff,
                minor: 0x10
            },
            inode: 0,
            pathname: None
        })
    );
}

#[test]
fn test_smaps_from_str() {
    let txt = "\
6036e81d0000-6036e84bd000 rw-p 00000000 00:00 0                          [heap]
Size:               2996 kB
KernelPageSize:        4 kB
MMUPageSize:           4 kB
Rss:                2796 kB
Pss:                2796 kB
Pss_Dirty:          2796 kB
Shared_Clean:          0 kB
Shared_Dirty:          0 kB
Private_Clean:         0 kB
Private_Dirty:      2796 kB
Referenced:         2796 kB
Anonymous:          2796 kB
KSM:                   0 kB
LazyFree:              0 kB
AnonHugePages:         0 kB
ShmemPmdMapped:        0 kB
FilePmdMapped:         0 kB
Shared_Hugetlb:        0 kB
Private_Hugetlb:       0 kB
Swap:                  0 kB
SwapPss:               0 kB
Locked:                0 kB
THPeligible:           1
ProtectionKey:         0
VmFlags: rd wr mr mw me ac sd 
76be15f03000-76be160ed000 rw-p 00000000 00:00 0 
Rss:                1960 kB
Swap:                  0 kB
Locked:                0 kB
FilePmdMapped:         0 kB
Referenced:         1960 kB
Private_Dirty:      1960 kB
KernelPageSize:        4 kB
Private_Clean:         0 kB
ProtectionKey:         0
ShmemPmdMapped:        0 kB
Anonymous:          1960 kB
Size:               1960 kB
Shared_Dirty:          0 kB
Shared_Clean:          0 kB
Pss:                1960 kB
MMUPageSize:           4 kB
VmFlags: 
";

    let mut perms: Permissions = Default::default();
    perms.read = true;
    perms.write = true;
    perms.private = true;

    assert_eq!(
        from_str(txt),
        Some(vec![
            SMap {
                mapping: Mapping {
                    start: 0x6036e81d0000,
                    end: 0x6036e84bd000,
                    perms: Permissions { ..perms },
                    offset: 0,
                    inode: 0,
                    device: Default::default(),
                    pathname: Some("[heap]".to_string())
                },
                size: 2996 * 1024,
                kernel_page_size: 4 * 1024,
                mmu_page_size: 4 * 1024,
                rss: 2796 * 1024,
                pss: 2796 * 1024,
                pss_dirty: 2796 * 1024,
                private_dirty: 2796 * 1024,
                referenced: 2796 * 1024,
                anonymous: 2796 * 1024,
                thp_eligible: 1,
                vm_flags: VmFlags {
                    rd: true,
                    wr: true,
                    mr: true,
                    mw: true,
                    me: true,
                    ac: true,
                    sd: true,
                    ..Default::default()
                },
                ..Default::default()
            },
            SMap {
                mapping: Mapping {
                    start: 0x76be15f03000,
                    end: 0x76be160ed000,
                    perms: Permissions { ..perms },
                    offset: 0,
                    inode: 0,
                    device: Default::default(),
                    pathname: None
                },
                rss: 1960 * 1024,
                referenced: 1960 * 1024,
                private_dirty: 1960 * 1024,
                kernel_page_size: 4 * 1024,
                anonymous: 1960 * 1024,
                size: 1960 * 1024,
                pss: 1960 * 1024,
                mmu_page_size: 4 * 1024,
                ..Default::default()
            },
        ])
    );
}

#[test]
fn permission_token_order_is_irrelevant() {
    assert_eq!(
        Permissions::from_str("rwxp"),
        Permissions::from_str("pxwr")
    );
    let all = Permissions {
        read: true,
        write: true,
        execute: true,
        shared: true,
        private: true,
    };
    assert_eq!(Permissions::from_str("rwxsp"), all);
    assert_eq!(Permissions::from_str("pswxr"), all);
    // Unrecognized characters are ignored.
    assert_eq!(Permissions::from_str("zz--z"), Default::default());
}

#[test]
fn vmflags_duplicates_do_not_matter() {
    assert_eq!(
        VmFlags::from_str("rd rd de de uw"),
        VmFlags::from_str("uw rd de")
    );
}

fn anon_mapping() -> Mapping {
    Mapping::from_str("0-1000 rw-p 0 0:0 0").unwrap()
}

#[test]
fn kb_suffix_scales_by_1024() {
    let m = anon_mapping();
    let rec = SMap::from_lines(m, vec!["Size:               2996 kB"]).unwrap();
    assert_eq!(rec.size, 2996 * 1024);

    let m = anon_mapping();
    let rec = SMap::from_lines(m, vec!["Size: 5 kB"]).unwrap();
    assert_eq!(rec.size, 5 * 1024);

    // Without the suffix the value is taken literally.
    let m = anon_mapping();
    let rec = SMap::from_lines(m, vec!["THPeligible: 1", "ProtectionKey: 15"]).unwrap();
    assert_eq!(rec.thp_eligible, 1);
    assert_eq!(rec.protection_key, 15);
}

#[test]
fn unknown_detail_key_is_ignored() {
    let m = anon_mapping();
    let rec = SMap::from_lines(m, vec!["SomeFutureKey: 7 kB", "Size: 2 kB"]).unwrap();
    assert_eq!(rec.size, 2 * 1024);
    assert_eq!(rec.rss, 0);
}

#[test]
fn lines_without_one_delimiter_are_skipped() {
    let m = anon_mapping();
    let rec = SMap::from_lines(m, vec!["no delimiter here", "a:b:c", "Size: 3 kB"]).unwrap();
    assert_eq!(rec.size, 3 * 1024);
}

#[test]
fn malformed_numeric_value_poisons_the_record() {
    let m = anon_mapping();
    assert_eq!(SMap::from_lines(m, vec!["Size: abc kB"]), None);
    let m = anon_mapping();
    assert_eq!(SMap::from_lines(m, vec!["Size:  kB"]), None);
    let m = anon_mapping();
    assert_eq!(SMap::from_lines(m, vec!["Size: 12x3"]), None);
    // Even under a key nobody recognizes.
    let m = anon_mapping();
    assert_eq!(SMap::from_lines(m, vec!["SomeFutureKey: zz"]), None);
    // A value too large for the counter fails too.
    let m = anon_mapping();
    assert_eq!(
        SMap::from_lines(m, vec!["Size: 99999999999999999999 kB"]),
        None
    );
}

#[test]
fn plus_signed_values_parse_like_the_standard_conversion() {
    let m = anon_mapping();
    let rec = SMap::from_lines(m, vec!["Size: +5 kB"]).unwrap();
    assert_eq!(rec.size, 5 * 1024);
}

#[test]
fn vmflags_line_sets_flags_in_record() {
    let m = anon_mapping();
    let rec = SMap::from_lines(m, vec!["VmFlags: rd wr sd"]).unwrap();
    assert!(rec.vm_flags.rd && rec.vm_flags.wr && rec.vm_flags.sd);
    assert!(!rec.vm_flags.ex);
}

#[test]
fn empty_input_yields_no_result() {
    assert_eq!(from_str(""), None);
}

#[test]
fn bad_first_line_yields_no_result() {
    assert_eq!(from_str("this is not a header\nSize: 1 kB\n"), None);
}

#[test]
fn fatal_line_in_later_mapping_poisons_everything() {
    let txt = "\
0-1000 rw-p 0 0:0 0
Size: 4 kB
1000-2000 r--p 0 0:0 0
Rss: bogus kB
";
    assert_eq!(from_str(txt), None);
}

#[test]
fn pathname_may_contain_spaces() {
    let m = Mapping::from_str("0-1 r--p 0 0:0 5 /path with spaces").unwrap();
    assert_eq!(m.pathname, Some("/path with spaces".to_string()));
    assert_eq!(m.inode, 5);
}

#[test]
fn header_field_overflow_yields_no_mapping() {
    // Nineteen hex digits exceed the address type.
    assert_eq!(Mapping::from_str("ffffffffffffffffff0-0 rw-p 0 0:0 0"), None);
    // A decimal inode too large for its type fails as well.
    assert_eq!(Mapping::from_str("0-1 rw-p 0 0:0 99999999999999999999"), None);
}

#[test]
fn two_records_in_input_order() {
    let txt = "\
0-1000 rw-p 0 0:0 0
Size: 4 kB
1000-2000 r--p 0 0:0 0
Size: 8 kB
";
    let recs = from_str(txt).unwrap();
    assert_eq!(recs.len(), 2);
    assert_eq!(recs[0].mapping.start, 0);
    assert_eq!(recs[0].size, 4 * 1024);
    assert_eq!(recs[1].mapping.start, 0x1000);
    assert_eq!(recs[1].size, 8 * 1024);
}
