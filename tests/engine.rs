use procmem::error::EngineError;
use procmem::hex::{parse_hex_usize, parse_hex_vector};
use procmem::maps::{enumerate, parse_listing_line};
use procmem::native::{from_windows, to_posix, to_windows};
use procmem::protection::{parse_protection, Protection, ProtectionFlag};
use procmem::session::{AllocationRequest, Session, Transfer};

const LISTING: &str = "\
55d0c7a3e000-55d0c7a40000 r--p 00000000 fd:01 1234                       /usr/bin/cat
55d0c7a40000-55d0c7a45000 r-xp 00002000 fd:01 1234                       /usr/bin/cat
55d0c8f1e000-55d0c8f3f000 rw-p 00000000 00:00 0                          [heap]
7ffd1a2b3000-7ffd1a2d4000 rw-p 00000000 00:00 0                          [stack]
";

fn plain(base: ProtectionFlag) -> Protection {
    Protection { base, guard: false, no_cache: false, write_combine: false }
}

fn open_sample() -> Session {
    Session::open(42, LISTING.as_bytes()).unwrap()
}

#[test]
fn readwrite_parses_to_read_write() {
    assert_eq!(parse_protection("READWRITE"), Ok(plain(ProtectionFlag::ReadWrite)));
}

#[test]
fn execute_readwrite_with_guard_parses() {
    let p = parse_protection("EXECUTE_READWRITE|GUARD").unwrap();
    assert_eq!(
        p,
        Protection { base: ProtectionFlag::ExecuteReadWrite, guard: true, no_cache: false, write_combine: false }
    );
}

#[test]
fn guard_with_writecopy_is_rejected() {
    assert_eq!(parse_protection("GUARD|WRITECOPY"), Err(EngineError::InvalidProtectionSpec));
    assert_eq!(parse_protection("EXECUTE_WRITECOPY|GUARD"), Err(EngineError::InvalidProtectionSpec));
}

#[test]
fn unknown_name_is_rejected() {
    assert_eq!(parse_protection("BOGUS"), Err(EngineError::InvalidProtectionSpec));
    assert_eq!(parse_protection("READWRITE|BOGUS"), Err(EngineError::InvalidProtectionSpec));
    assert_eq!(parse_protection("readwrite"), Err(EngineError::InvalidProtectionSpec));
}

#[test]
fn specifier_needs_exactly_one_base_flag() {
    assert_eq!(parse_protection(""), Err(EngineError::InvalidProtectionSpec));
    assert_eq!(parse_protection("GUARD|NOCACHE"), Err(EngineError::InvalidProtectionSpec));
    assert_eq!(parse_protection("READONLY|READWRITE"), Err(EngineError::InvalidProtectionSpec));
    assert_eq!(parse_protection("READWRITE|"), Err(EngineError::InvalidProtectionSpec));
    assert_eq!(parse_protection("READONLY|READONLY"), Ok(plain(ProtectionFlag::ReadOnly)));
}

#[test]
fn modifiers_combine_with_a_base() {
    let p = parse_protection("NOCACHE|READONLY|WRITECOMBINE").unwrap();
    assert_eq!(
        p,
        Protection { base: ProtectionFlag::ReadOnly, guard: false, no_cache: true, write_combine: true }
    );
}

#[test]
fn windows_values_match_page_constants() {
    assert_eq!(to_windows(plain(ProtectionFlag::NoAccess)), 0x01);
    assert_eq!(to_windows(plain(ProtectionFlag::ExecuteWriteCopy)), 0x80);
    let p = parse_protection("EXECUTE_READWRITE|GUARD").unwrap();
    assert_eq!(to_windows(p), 0x140);
    assert_eq!(from_windows(0x140), Some(p));
    assert_eq!(from_windows(0x108), None);
    assert_eq!(from_windows(0x03), None);
    assert_eq!(from_windows(0x804), None);
}

#[test]
fn windows_round_trip_on_every_valid_set() {
    let bases = [
        ProtectionFlag::NoAccess,
        ProtectionFlag::ReadOnly,
        ProtectionFlag::ReadWrite,
        ProtectionFlag::WriteCopy,
        ProtectionFlag::Execute,
        ProtectionFlag::ExecuteRead,
        ProtectionFlag::ExecuteReadWrite,
        ProtectionFlag::ExecuteWriteCopy,
    ];
    for base in bases {
        for m in 0..8u32 {
            let p = Protection { base, guard: m & 1 != 0, no_cache: m & 2 != 0, write_combine: m & 4 != 0 };
            let copy = base == ProtectionFlag::WriteCopy || base == ProtectionFlag::ExecuteWriteCopy;
            if p.guard && copy {
                continue;
            }
            assert_eq!(from_windows(to_windows(p)), Some(p));
        }
    }
}

#[test]
fn posix_bits_follow_the_base() {
    assert_eq!(to_posix(plain(ProtectionFlag::NoAccess)), 0);
    assert_eq!(to_posix(plain(ProtectionFlag::ReadOnly)), 1);
    assert_eq!(to_posix(plain(ProtectionFlag::ReadWrite)), 3);
    assert_eq!(to_posix(plain(ProtectionFlag::ExecuteRead)), 5);
    assert_eq!(to_posix(plain(ProtectionFlag::ExecuteReadWrite)), 7);
}

#[test]
fn listing_line_parses_all_fields() {
    let r = parse_listing_line(b"55d0c7a40000-55d0c7a45000 r-xp 00002000 fd:01 1234   /usr/bin/cat").unwrap();
    assert_eq!(r.start, 0x55d0c7a40000);
    assert_eq!(r.end, 0x55d0c7a45000);
    assert_eq!(r.size(), 0x5000);
    assert_eq!(r.protection, plain(ProtectionFlag::ExecuteRead));
    assert_eq!(r.offset, Some(0x2000));
    assert_eq!(r.path, Some(b"/usr/bin/cat".to_vec()));
}

#[test]
fn anonymous_line_has_no_path() {
    let r = parse_listing_line(b"7f0000000000-7f0000001000 ---p 00000000 00:00 0").unwrap();
    assert_eq!(r.protection, plain(ProtectionFlag::NoAccess));
    assert_eq!(r.path, None);
}

#[test]
fn malformed_lines_are_rejected() {
    assert!(parse_listing_line(b"").is_none());
    assert!(parse_listing_line(b"1000-0800 rw-p 00000000 00:00 0").is_none());
    assert!(parse_listing_line(b"1000-2000 rwzp 00000000 00:00 0").is_none());
    assert!(parse_listing_line(b"1000 2000 rw-p 00000000 00:00 0").is_none());
    assert!(parse_listing_line(b"10000000000000000-10000000000000001 rw-p 0 00:00 0").is_none());
}

#[test]
fn open_snapshot_is_sorted_and_disjoint() {
    let s = open_sample();
    let t = s.snapshot();
    assert_eq!(t.len(), 4);
    for i in 0..t.len() {
        assert!(t[i].start < t[i].end);
        if i + 1 < t.len() {
            assert!(t[i].end <= t[i + 1].start);
        }
    }
    assert_eq!(t[2].path, Some(b"[heap]".to_vec()));
    assert_eq!(t[2].protection, plain(ProtectionFlag::ReadWrite));
}

#[test]
fn enumeration_skips_bad_and_unordered_lines() {
    let listing = "2000-3000 r--p 0 00:00 0\nnot a mapping\n1000-1800 r--p 0 00:00 0\n\n3000-4000 rw-p 0 00:00 0\n";
    let e = enumerate(listing.as_bytes());
    assert_eq!(e.regions.len(), 2);
    assert_eq!(e.skipped, 2);
    assert_eq!(e.regions[0].start, 0x2000);
    assert_eq!(e.regions[1].start, 0x3000);
}

#[test]
fn open_with_pid_zero_fails() {
    assert!(matches!(Session::open(0, LISTING.as_bytes()), Err(EngineError::AttachError { pid: 0 })));
}

#[test]
fn read_region_covers_the_whole_region() {
    let s = open_sample();
    let t = s.read_region(1, LISTING.as_bytes()).unwrap();
    assert_eq!(t, Transfer { address: 0x55d0c7a40000, length: 0x5000 });
}

#[test]
fn read_region_of_unmapped_region_fails() {
    let s = open_sample();
    let fresh = "55d0c7a3e000-55d0c7a40000 r--p 00000000 fd:01 1234 /usr/bin/cat\n";
    assert_eq!(s.read_region(1, fresh.as_bytes()), Err(EngineError::RegionUnavailable { index: 1 }));
    assert_eq!(s.read_region(9, LISTING.as_bytes()), Err(EngineError::RegionUnavailable { index: 9 }));
}

#[test]
fn short_read_is_an_io_error() {
    let t = Transfer { address: 0x1000, length: 4 };
    assert_eq!(
        Session::finish_read(t, vec![1, 2, 3]),
        Err(EngineError::IoError { address: 0x1000, requested: 4, transferred: 3 })
    );
    assert_eq!(Session::finish_read(t, vec![1, 2, 3, 4]), Ok(vec![1, 2, 3, 4]));
    assert_eq!(Session::finish_write(t, 4), Ok(()));
    assert_eq!(
        Session::finish_write(t, 0),
        Err(EngineError::IoError { address: 0x1000, requested: 4, transferred: 0 })
    );
}

#[test]
fn read_then_write_back_targets_same_range() {
    let s = open_sample();
    let t = s.read_region(0, LISTING.as_bytes()).unwrap();
    let bytes = Session::finish_read(t, vec![0xab; t.length as usize]).unwrap();
    assert_eq!(s.write_region(0, &bytes, LISTING.as_bytes()), Ok(t));
}

#[test]
fn write_region_size_mismatch() {
    let s = open_sample();
    assert_eq!(
        s.write_region(0, &[1, 2, 3], LISTING.as_bytes()),
        Err(EngineError::SizeMismatch { index: 0, expected: 0x2000, actual: 3 })
    );
    let longer = vec![0u8; 0x2001];
    assert_eq!(
        s.write_region(0, &longer, LISTING.as_bytes()),
        Err(EngineError::SizeMismatch { index: 0, expected: 0x2000, actual: 0x2001 })
    );
}

#[test]
fn address_forms_are_not_checked_against_the_table() {
    let s = open_sample();
    assert_eq!(s.read_address(0x10, 8), Ok(Transfer { address: 0x10, length: 8 }));
    assert_eq!(s.write_address(0x10, &[1, 2]), Ok(Transfer { address: 0x10, length: 2 }));
}

#[test]
fn set_protection_updates_the_table_on_acceptance() {
    let mut s = open_sample();
    let c = s.set_protection(2, "EXECUTE_READ").unwrap();
    assert_eq!(c.start, 0x55d0c8f1e000);
    assert_eq!(c.windows, 0x20);
    assert_eq!(c.posix, 5);
    assert_eq!(
        s.apply_protection(c, false),
        Err(EngineError::ProtectionError { start: 0x55d0c8f1e000, end: 0x55d0c8f3f000 })
    );
    assert_eq!(s.snapshot()[2].protection, plain(ProtectionFlag::ReadWrite));
    assert_eq!(s.apply_protection(c, true), Ok(()));
    assert_eq!(s.snapshot()[2].protection, plain(ProtectionFlag::ExecuteRead));
    assert_eq!(s.set_protection(2, "BOGUS"), Err(EngineError::InvalidProtectionSpec));
    assert_eq!(s.set_protection(7, "READONLY"), Err(EngineError::RegionUnavailable { index: 7 }));
}

#[test]
fn allocation_rounds_to_pages_and_is_usable() {
    let mut s = open_sample();
    let req = s.allocate(0x7f0000000000, 100).unwrap();
    assert_eq!(req, AllocationRequest { hint: 0x7f0000000000, size: 100 });
    let k = s.complete_allocation(req, Some(0x7f0000000000), 0x1000).unwrap();
    assert_eq!(k, 4);
    assert_eq!(s.snapshot().len(), 5);
    assert_eq!(s.enumerated_len(), 4);
    let r = &s.snapshot()[k];
    assert_eq!(r.start, 0x7f0000000000);
    assert_eq!(r.size(), 0x1000);
    assert!(r.size() >= 100);
    assert_eq!(r.start % 0x1000, 0);
    assert_eq!(r.protection, plain(ProtectionFlag::ReadWrite));
    assert_eq!(r.offset, None);
    assert_eq!(r.path, None);
    let fresh = LISTING.replace(
        "7ffd1a2b3000-",
        "7f0000000000-7f0000001000 rw-p 00000000 00:00 0\n7ffd1a2b3000-",
    );
    let t = s.read_region(k, fresh.as_bytes()).unwrap();
    assert_eq!(t, Transfer { address: 0x7f0000000000, length: 0x1000 });
    assert_eq!(s.write_region(k, &vec![0u8; 0x1000], fresh.as_bytes()), Ok(t));
}

#[test]
fn allocation_is_appended_after_the_table() {
    let mut s = Session::open(7, b"10000-20000 r--p 0 00:00 0\n").unwrap();
    let req = s.allocate(0x1000, 0x1000).unwrap();
    assert_eq!(s.complete_allocation(req, Some(0x1000), 0x1000), Ok(1));
    let t = s.snapshot();
    assert_eq!(t.len(), 2);
    assert_eq!(t[0].start, 0x10000);
    assert_eq!(t[1].start, 0x1000);
    assert_eq!(t[1].end, 0x2000);
}

#[test]
fn granted_allocation_is_recorded_even_over_a_stale_region() {
    let mut s = open_sample();
    let req = s.allocate(0x1000, 0x1800).unwrap();
    assert_eq!(s.complete_allocation(req, Some(0x55d0c8f1e000), 0x1000), Ok(4));
    assert_eq!(s.snapshot()[4].end, 0x55d0c8f20000);
    assert_eq!(s.complete_allocation(req, Some(0x1234), 0x1000), Ok(5));
    assert_eq!(s.snapshot()[5].size(), 0x2000);
}

#[test]
fn allocation_failures() {
    let mut s = open_sample();
    assert_eq!(s.allocate(0x1000, 0), Err(EngineError::AllocationError { hint: 0x1000, size: 0 }));
    let req = s.allocate(0x1000, 0x1000).unwrap();
    let err = Err(EngineError::AllocationError { hint: 0x1000, size: 0x1000 });
    assert_eq!(s.complete_allocation(req, None, 0x1000), err);
    assert_eq!(s.complete_allocation(req, Some(0x1000), 0), err);
    assert_eq!(s.complete_allocation(req, Some(u64::MAX - 0x100), 0x1000), err);
    assert_eq!(s.snapshot().len(), 4);
}

#[test]
fn open_records_skipped_lines() {
    let s = Session::open(3, b"1000-2000 r--p 0 00:00 0\ngarbage\n0800-0900 r--p 0 00:00 0\n").unwrap();
    assert_eq!(s.snapshot().len(), 1);
    assert_eq!(s.skipped_lines(), 2);
    assert_eq!(open_sample().skipped_lines(), 0);
}

#[test]
fn closed_session_refuses_everything() {
    let mut s = open_sample();
    let c = s.set_protection(0, "READONLY").unwrap();
    let req = s.allocate(0x1000, 0x1000).unwrap();
    s.close();
    assert!(!s.is_attached());
    let na = EngineError::NotAttached;
    assert_eq!(s.read_region(0, LISTING.as_bytes()), Err(na));
    assert_eq!(s.read_address(0x1000, 4), Err(na));
    assert_eq!(s.write_region(0, &[0], LISTING.as_bytes()), Err(na));
    assert_eq!(s.write_address(0x1000, &[0]), Err(na));
    assert_eq!(s.set_protection(0, "READONLY"), Err(na));
    assert_eq!(s.apply_protection(c, true), Err(na));
    assert_eq!(s.allocate(0x1000, 0x1000), Err(na));
    assert_eq!(s.complete_allocation(req, Some(0x1000), 0x1000), Err(na));
    assert_eq!(s.re_enumerate(LISTING.as_bytes()), Err(na));
}

#[test]
fn re_enumerate_replaces_the_table() {
    let mut s = open_sample();
    let listing = "1000-2000 r--p 0 00:00 0\nbroken\n";
    assert_eq!(s.re_enumerate(listing.as_bytes()), Ok(1));
    assert_eq!(s.snapshot().len(), 1);
    assert_eq!(s.skipped_lines(), 1);
    assert_eq!(s.enumerated_len(), 1);
    assert_eq!(s.pid(), 42);
}

#[test]
fn hex_addresses_and_bytes() {
    assert_eq!(parse_hex_usize("7ffd1a2b3000"), Some(0x7ffd1a2b3000));
    assert_eq!(parse_hex_usize("DeadBeef"), Some(0xdeadbeef));
    assert_eq!(parse_hex_usize("+10"), Some(16));
    assert_eq!(parse_hex_usize(""), None);
    assert_eq!(parse_hex_usize("0x10"), None);
    assert_eq!(parse_hex_usize("10000000000000000"), None);
    assert_eq!(parse_hex_vector("7f"), Some(0x7f));
    assert_eq!(parse_hex_vector("ff"), Some(0xff));
    assert_eq!(parse_hex_vector("100"), None);
    assert_eq!(parse_hex_vector("g1"), None);
}
