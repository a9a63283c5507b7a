use vstd::prelude::*;
use crate::native::listing_protection;
use crate::protection::{Protection, ProtectionFlag};
use crate::region::{MemoryRegion, RegionView, table_view, table_wf};
use crate::text::{piece_end, find_sep};

verus! {

pub const NEWLINE: u8 = 0x0a;
pub const SPACE: u8 = 0x20;
pub const DASH: u8 = 0x2d;

pub open spec fn is_hex_digit(b: u8) -> bool {
    (0x30 <= b <= 0x39) || (0x61 <= b <= 0x66) || (0x41 <= b <= 0x46)
}

pub open spec fn hex_digit_value(b: u8) -> nat {
    if 0x30 <= b <= 0x39 {
        (b - 0x30) as nat
    } else if 0x61 <= b <= 0x66 {
        (b - 0x61 + 10) as nat
    } else if 0x41 <= b <= 0x46 {
        (b - 0x41 + 10) as nat
    } else {
        0
    }
}

/// The number written by the hexadecimal digits `s`, most significant first.
pub open spec fn hex_value(s: Seq<u8>) -> nat
    decreases s.len(),
{
    if s.len() == 0 {
        0
    } else {
        hex_value(s.drop_last()) * 16 + hex_digit_value(s.last())
    }
}

/// The first index at or after `i` that does not hold a hexadecimal digit.
pub open spec fn hex_end(s: Seq<u8>, i: int) -> int
    decreases s.len() - i,
{
    if i >= s.len() {
        s.len() as int
    } else if !is_hex_digit(s[i]) {
        i
    } else {
        hex_end(s, i + 1)
    }
}

/// A non-empty hexadecimal number at `i` that fits in 64 bits and is followed by
/// `sep`: its value, and the index after the separator.
pub open spec fn hex_field(s: Seq<u8>, i: int, sep: u8) -> Option<(u64, int)> {
    let e = hex_end(s, i);
    if 0 <= i < e < s.len() && s[e] == sep && hex_value(s.subrange(i, e)) <= u64::MAX {
        Some((hex_value(s.subrange(i, e)) as u64, e + 1))
    } else {
        None
    }
}

/// The four permission characters at `i` (`r`, `w`, `x` or `-`, then `p` or
/// `s`) followed by a space: the protection, and the index after the space.
pub open spec fn perm_field(s: Seq<u8>, i: int) -> Option<(Protection, int)> {
    if 0 <= i && i + 4 < s.len() && (s[i] == 0x72 || s[i] == DASH) && (s[i + 1] == 0x77 || s[i + 1] == DASH)
        && (s[i + 2] == 0x78 || s[i + 2] == DASH) && (s[i + 3] == 0x70 || s[i + 3] == 0x73) && s[i + 4]
        == SPACE {
        Some((listing_protection(s[i] == 0x72, s[i + 1] == 0x77, s[i + 2] == 0x78), i + 5))
    } else {
        None
    }
}

/// The first index at or after `i` that does not hold a space.
pub open spec fn skip_spaces(s: Seq<u8>, i: int) -> int
    decreases s.len() - i,
{
    if i >= s.len() {
        s.len() as int
    } else if s[i] != SPACE {
        i
    } else {
        skip_spaces(s, i + 1)
    }
}

/// One line of a mapping listing:
/// `start-end perms offset device inode [path]`, addresses and offset in
/// hexadecimal, with `start < end`.
pub open spec fn parse_line(s: Seq<u8>) -> Option<RegionView> {
    match hex_field(s, 0, DASH) {
        None => None,
        Some((start, i1)) => match hex_field(s, i1, SPACE) {
            None => None,
            Some((end, i2)) => match perm_field(s, i2) {
                None => None,
                Some((protection, i3)) => match hex_field(s, i3, SPACE) {
                    None => None,
                    Some((offset, i4)) => {
                        let e5 = piece_end(s, i4, SPACE);
                        let e6 = piece_end(s, e5 + 1, SPACE);
                        let p = skip_spaces(s, e6);
                        if start < end && i4 < e5 < s.len() && e5 + 1 < e6 {
                            Some(
                                RegionView {
                                    start,
                                    end,
                                    protection,
                                    offset: Some(offset),
                                    path: if p < s.len() {
                                        Some(s.subrange(p, s.len() as int))
                                    } else {
                                        None
                                    },
                                },
                            )
                        } else {
                            None
                        }
                    },
                },
            },
        },
    }
}

/// Adds one line to a table under construction: a parsed region that starts at
/// or after the end of the last one is appended; any other non-empty line is
/// counted as skipped.
pub open spec fn add_line(line: Seq<u8>, table: Seq<RegionView>, skipped: nat) -> (Seq<RegionView>, nat) {
    if line.len() == 0 {
        (table, skipped)
    } else {
        match parse_line(line) {
            Some(r) => if table.len() == 0 || table.last().end <= r.start {
                (table.push(r), skipped)
            } else {
                (table, skipped + 1)
            },
            None => (table, skipped + 1),
        }
    }
}

/// Reads the lines of a listing from index `i` on into `table`.
pub open spec fn enumerate_from(s: Seq<u8>, i: int, table: Seq<RegionView>, skipped: nat) -> (Seq<RegionView>, nat)
    decreases s.len() - i,
{
    if i < 0 || i > s.len() {
        (table, skipped)
    } else {
        let e = piece_end(s, i, NEWLINE);
        let next = add_line(s.subrange(i, e), table, skipped);
        if i <= e < s.len() {
            enumerate_from(s, e + 1, next.0, next.1)
        } else {
            next
        }
    }
}

/// The region table of a whole listing, and the number of lines skipped.
pub open spec fn enumerate_spec(s: Seq<u8>) -> (Seq<RegionView>, nat) {
    enumerate_from(s, 0, seq![], 0)
}

/// The result of an enumeration: the region table, and how many malformed or
/// out-of-order lines were skipped.
pub struct Enumeration {
    pub regions: Vec<MemoryRegion>,
    pub skipped: usize,
}

fn digit_value(b: u8) -> (r: Option<u64>)
    ensures
        r is Some <==> is_hex_digit(b),
        r is Some ==> r->0 == hex_digit_value(b),
{
    if 0x30 <= b && b <= 0x39 {
        Some((b - 0x30) as u64)
    } else if 0x61 <= b && b <= 0x66 {
        Some((b - 0x61 + 10) as u64)
    } else if 0x41 <= b && b <= 0x46 {
        Some((b - 0x41 + 10) as u64)
    } else {
        None
    }
}

/// Reads the run of hexadecimal digits that starts at `i`: where it ends, and
/// its value when that fits in 64 bits.
pub fn scan_hex_run(s: &[u8], i: usize) -> (r: (usize, Option<u64>))
    requires
        i <= s@.len(),
    ensures
        i <= r.0 <= s@.len(),
        r.0 == hex_end(s@, i as int),
        forall|m: int| i <= m < r.0 ==> is_hex_digit(#[trigger] s@[m]),
        r.0 < s@.len() ==> !is_hex_digit(s@[r.0 as int]),
        match r.1 {
            Some(v) => v == hex_value(s@.subrange(i as int, r.0 as int)),
            None => hex_value(s@.subrange(i as int, r.0 as int)) > u64::MAX,
        },
{
    let mut k: usize = i;
    let mut acc: u64 = 0;
    let mut overflow = false;
    while k < s.len()
        invariant
            i <= k <= s@.len(),
            hex_end(s@, i as int) == hex_end(s@, k as int),
            forall|m: int| i <= m < k ==> is_hex_digit(#[trigger] s@[m]),
            !overflow ==> acc == hex_value(s@.subrange(i as int, k as int)),
            overflow ==> hex_value(s@.subrange(i as int, k as int)) > u64::MAX,
        ensures
            i <= k <= s@.len(),
            hex_end(s@, i as int) == k,
            forall|m: int| i <= m < k ==> is_hex_digit(#[trigger] s@[m]),
            k < s@.len() ==> !is_hex_digit(s@[k as int]),
            !overflow ==> acc == hex_value(s@.subrange(i as int, k as int)),
            overflow ==> hex_value(s@.subrange(i as int, k as int)) > u64::MAX,
        decreases s@.len() - k,
    {
        let d = match digit_value(s[k]) {
            None => break,
            Some(d) => d,
        };
        proof {
            assert(s@.subrange(i as int, k + 1).drop_last() =~= s@.subrange(i as int, k as int));
        }
        if !overflow {
            if acc > (u64::MAX - d) / 16 {
                overflow = true;
            } else {
                acc = acc * 16 + d;
            }
        }
        k = k + 1;
    }
    if overflow {
        (k, None)
    } else {
        (k, Some(acc))
    }
}

/// Reads a hexadecimal field at `i` ended by `sep`.
pub fn scan_hex(s: &[u8], i: usize, sep: u8) -> (r: Option<(u64, usize)>)
    requires
        i <= s@.len(),
    ensures
        match r {
            None => hex_field(s@, i as int, sep) is None,
            Some((v, n)) => hex_field(s@, i as int, sep) == Some((v, n as int)),
        },
{
    let (k, value) = scan_hex_run(s, i);
    match value {
        None => None,
        Some(acc) => {
            if k == i || k >= s.len() || s[k] != sep {
                None
            } else {
                Some((acc, k + 1))
            }
        },
    }
}

/// Reads the permission field at `i`.
fn scan_perms(s: &[u8], i: usize) -> (r: Option<(Protection, usize)>)
    requires
        i <= s@.len(),
    ensures
        match r {
            None => perm_field(s@, i as int) is None,
            Some((p, n)) => perm_field(s@, i as int) == Some((p, n as int)),
        },
{
    if i >= s.len() || s.len() - i <= 4 {
        return None;
    }
    let r = s[i];
    let w = s[i + 1];
    let x = s[i + 2];
    let m = s[i + 3];
    if (r == 0x72 || r == DASH) && (w == 0x77 || w == DASH) && (x == 0x78 || x == DASH) && (m == 0x70
        || m == 0x73) && s[i + 4] == SPACE {
        Some((listing_protection_exec(r == 0x72, w == 0x77, x == 0x78), i + 5))
    } else {
        None
    }
}

fn listing_protection_exec(read: bool, write: bool, exec: bool) -> (r: Protection)
    ensures
        r == listing_protection(read, write, exec),
{
    let base = if exec {
        if write {
            ProtectionFlag::ExecuteReadWrite
        } else if read {
            ProtectionFlag::ExecuteRead
        } else {
            ProtectionFlag::Execute
        }
    } else if write {
        ProtectionFlag::ReadWrite
    } else if read {
        ProtectionFlag::ReadOnly
    } else {
        ProtectionFlag::NoAccess
    };
    Protection { base, guard: false, no_cache: false, write_combine: false }
}

fn skip_spaces_exec(s: &[u8], i: usize) -> (r: usize)
    requires
        i <= s@.len(),
    ensures
        r == skip_spaces(s@, i as int),
        i <= r <= s@.len(),
{
    let mut k: usize = i;
    while k < s.len() && s[k] == SPACE
        invariant
            i <= k <= s@.len(),
            skip_spaces(s@, i as int) == skip_spaces(s@, k as int),
        decreases s@.len() - k,
    {
        k = k + 1;
    }
    k
}

/// Parses one line of a mapping listing into a region.
pub fn parse_listing_line(s: &[u8]) -> (r: Option<MemoryRegion>)
    ensures
        match r {
            None => parse_line(s@) is None,
            Some(reg) => parse_line(s@) == Some(reg@),
        },
{
    let (start, i1) = match scan_hex(s, 0, DASH) {
        None => return None,
        Some(v) => v,
    };
    let (end, i2) = match scan_hex(s, i1, SPACE) {
        None => return None,
        Some(v) => v,
    };
    let (protection, i3) = match scan_perms(s, i2) {
        None => return None,
        Some(v) => v,
    };
    let (offset, i4) = match scan_hex(s, i3, SPACE) {
        None => return None,
        Some(v) => v,
    };
    let e5 = find_sep(s, i4, SPACE);
    if !(start < end && i4 < e5 && e5 < s.len()) {
        return None;
    }
    let e6 = find_sep(s, e5 + 1, SPACE);
    if !(e5 + 1 < e6) {
        return None;
    }
    let p = skip_spaces_exec(s, e6);
    let path = if p < s.len() {
        Some(vstd::slice::slice_to_vec(vstd::slice::slice_subrange(s, p, s.len())))
    } else {
        None
    };
    Some(MemoryRegion { start, end, protection, offset: Some(offset), path })
}

/// Reads a mapping listing into a region table. Malformed lines, and lines whose
/// region does not start at or after the end of the previous one, are skipped
/// and counted; empty lines are ignored.
pub fn enumerate(listing: &[u8]) -> (r: Enumeration)
    ensures
        table_view(r.regions@) == enumerate_spec(listing@).0,
        r.skipped == enumerate_spec(listing@).1,
        table_wf(table_view(r.regions@)),
{
    let mut regions: Vec<MemoryRegion> = Vec::new();
    let mut skipped: usize = 0;
    let mut i: usize = 0;
    assert(table_view(regions@) =~= seq![]);
    loop
        invariant_except_break
            skipped <= i,
            enumerate_from(listing@, i as int, table_view(regions@), skipped as nat) == enumerate_spec(listing@),
        invariant
            0 <= i <= listing@.len(),
            table_wf(table_view(regions@)),
        ensures
            table_view(regions@) == enumerate_spec(listing@).0,
            skipped == enumerate_spec(listing@).1,
            table_wf(table_view(regions@)),
        decreases listing@.len() - i,
    {
        let e = find_sep(listing, i, NEWLINE);
        let line = vstd::slice::slice_subrange(listing, i, e);
        let ghost before = table_view(regions@);
        if e > i {
            match parse_listing_line(line) {
                Some(reg) => {
                    let n = regions.len();
                    if n == 0 || regions[n - 1].end <= reg.start {
                        regions.push(reg);
                        proof {
                            assert(table_view(regions@) =~= before.push(regions@[n as int]@));
                            let t = table_view(regions@);
                            assert forall|a: int, b: int| 0 <= a < b < t.len() implies (#[trigger] t[a]).end
                                <= (#[trigger] t[b]).start by {
                                if b == n {
                                    if a < n - 1 {
                                        assert(before[a].end <= before[n - 1].start);
                                    }
                                }
                            }
                        }
                    } else {
                        skipped = skipped + 1;
                    }
                },
                None => {
                    skipped = skipped + 1;
                },
            }
        }
        if e < listing.len() {
            i = e + 1;
        } else {
            break;
        }
    }
    Enumeration { regions, skipped }
}

proof fn lemma_piece_end_bounds(s: Seq<u8>, i: int, sep: u8)
    requires
        0 <= i <= s.len(),
    ensures
        i <= piece_end(s, i, sep) <= s.len(),
        piece_end(s, i, sep) < s.len() ==> s[piece_end(s, i, sep)] == sep,
        forall|m: int| i <= m < s.len() && s[m] == sep ==> piece_end(s, i, sep) <= m,
    decreases s.len() - i,
{
    if i < s.len() && s[i] != sep {
        lemma_piece_end_bounds(s, i + 1, sep);
    }
}

proof fn lemma_add_line(line: Seq<u8>, t: Seq<RegionView>, k: nat)
    requires
        table_wf(t),
    ensures
        table_wf(add_line(line, t, k).0),
        add_line(line, t, k).0.len() >= t.len(),
        line.len() > 0 && parse_line(line) is Some ==> add_line(line, t, k).0.len() > 0,
{
    if line.len() > 0 {
        if let Some(r) = parse_line(line) {
            if t.len() == 0 || t.last().end <= r.start {
                let n = t.push(r);
                assert forall|a: int, c: int| 0 <= a < c < n.len() implies (#[trigger] n[a]).end <= (#[trigger] n[c]).start by {
                    if c == t.len() && a < t.len() - 1 {
                        assert(t[a].end <= t[t.len() - 1].start);
                        assert(t[t.len() - 1].wf());
                    }
                }
                assert forall|a: int| 0 <= a < n.len() implies (#[trigger] n[a]).wf() by {
                    if a < t.len() {
                        assert(t[a].wf());
                    }
                }
            }
        }
    }
}

proof fn lemma_enumerate_from(s: Seq<u8>, i: int, t: Seq<RegionView>, k: nat)
    requires
        table_wf(t),
    ensures
        table_wf(enumerate_from(s, i, t, k).0),
        enumerate_from(s, i, t, k).0.len() >= t.len(),
    decreases s.len() - i,
{
    if 0 <= i <= s.len() {
        lemma_piece_end_bounds(s, i, NEWLINE);
        let e = piece_end(s, i, NEWLINE);
        let next = add_line(s.subrange(i, e), t, k);
        lemma_add_line(s.subrange(i, e), t, k);
        if i <= e < s.len() {
            lemma_enumerate_from(s, e + 1, next.0, next.1);
        }
    }
}

proof fn lemma_enumerate_reaches(s: Seq<u8>, i: int, t: Seq<RegionView>, k: nat, j: int)
    requires
        table_wf(t),
        0 <= i <= j <= s.len(),
        j == i || s[j - 1] == NEWLINE,
        parse_line(s.subrange(j, piece_end(s, j, NEWLINE))) is Some,
    ensures
        enumerate_from(s, i, t, k).0.len() > 0,
    decreases s.len() - i,
{
    lemma_piece_end_bounds(s, i, NEWLINE);
    let e = piece_end(s, i, NEWLINE);
    let next = add_line(s.subrange(i, e), t, k);
    lemma_add_line(s.subrange(i, e), t, k);
    if j == i {
        if i <= e < s.len() {
            lemma_enumerate_from(s, e + 1, next.0, next.1);
        }
    } else {
        assert(e <= j - 1);
        lemma_enumerate_reaches(s, e + 1, next.0, next.1, j);
    }
}

/// A table read from any listing is sorted by start address and pairwise
/// disjoint, every region in it has a positive size, and it is non-empty as soon
/// as one line of the listing (the one at index `j`) describes a region.
pub proof fn lemma_listing_table(listing: Seq<u8>, j: int)
    ensures
        table_wf(enumerate_spec(listing).0),
        0 <= j <= listing.len() && (j == 0 || listing[j - 1] == NEWLINE) && parse_line(
            listing.subrange(j, piece_end(listing, j, NEWLINE)),
        ) is Some ==> enumerate_spec(listing).0.len() > 0,
{
    lemma_enumerate_from(listing, 0, seq![], 0);
    if 0 <= j <= listing.len() && (j == 0 || listing[j - 1] == NEWLINE) && parse_line(
        listing.subrange(j, piece_end(listing, j, NEWLINE)),
    ) is Some {
        lemma_enumerate_reaches(listing, 0, seq![], 0, j);
    }
}

} // verus!
