use vstd::prelude::*;
use crate::protection::{Protection, ProtectionFlag, is_write_copy};

verus! {

pub const PAGE_GUARD: u32 = 0x100;
pub const PAGE_NOCACHE: u32 = 0x200;
pub const PAGE_WRITECOMBINE: u32 = 0x400;

pub const PROT_READ: u32 = 1;
pub const PROT_WRITE: u32 = 2;
pub const PROT_EXEC: u32 = 4;

/// The Windows page-protection constant of each base-access flag.
pub open spec fn windows_base(f: ProtectionFlag) -> u32 {
    match f {
        ProtectionFlag::NoAccess => 0x01,
        ProtectionFlag::ReadOnly => 0x02,
        ProtectionFlag::ReadWrite => 0x04,
        ProtectionFlag::WriteCopy => 0x08,
        ProtectionFlag::Execute => 0x10,
        ProtectionFlag::ExecuteRead => 0x20,
        ProtectionFlag::ExecuteReadWrite => 0x40,
        ProtectionFlag::ExecuteWriteCopy => 0x80,
        _ => 0,
    }
}

/// The base-access flag of a Windows page-protection constant.
pub open spec fn windows_base_flag(v: u32) -> Option<ProtectionFlag> {
    if v == 0x01 {
        Some(ProtectionFlag::NoAccess)
    } else if v == 0x02 {
        Some(ProtectionFlag::ReadOnly)
    } else if v == 0x04 {
        Some(ProtectionFlag::ReadWrite)
    } else if v == 0x08 {
        Some(ProtectionFlag::WriteCopy)
    } else if v == 0x10 {
        Some(ProtectionFlag::Execute)
    } else if v == 0x20 {
        Some(ProtectionFlag::ExecuteRead)
    } else if v == 0x40 {
        Some(ProtectionFlag::ExecuteReadWrite)
    } else if v == 0x80 {
        Some(ProtectionFlag::ExecuteWriteCopy)
    } else {
        None
    }
}

/// The Windows protection value of a protection set: its base constant with the
/// modifier bits added.
pub open spec fn windows_value(p: Protection) -> u32 {
    (windows_base(p.base) + (if p.guard { PAGE_GUARD } else { 0 }) + (if p.no_cache {
        PAGE_NOCACHE
    } else {
        0
    }) + (if p.write_combine { PAGE_WRITECOMBINE } else { 0 })) as u32
}

/// The protection set that a Windows protection value stands for, if any.
pub open spec fn windows_decode(v: u32) -> Option<Protection> {
    let m = v / 0x100;
    match windows_base_flag(v % 0x100) {
        None => None,
        Some(b) => if m >= 8 || (m % 2 == 1 && is_write_copy(b)) {
            None
        } else {
            Some(Protection { base: b, guard: m % 2 == 1, no_cache: (m / 2) % 2 == 1, write_combine: m / 4 == 1 })
        },
    }
}

/// The POSIX `PROT_*` bits of a protection set. The modifiers have no POSIX
/// counterpart, and a copy-on-write base maps to plain read-write access.
pub open spec fn posix_value(p: Protection) -> u32 {
    match p.base {
        ProtectionFlag::NoAccess => 0,
        ProtectionFlag::ReadOnly => PROT_READ,
        ProtectionFlag::ReadWrite => (PROT_READ + PROT_WRITE) as u32,
        ProtectionFlag::WriteCopy => (PROT_READ + PROT_WRITE) as u32,
        ProtectionFlag::Execute => PROT_EXEC,
        ProtectionFlag::ExecuteRead => (PROT_READ + PROT_EXEC) as u32,
        ProtectionFlag::ExecuteReadWrite => (PROT_READ + PROT_WRITE + PROT_EXEC) as u32,
        ProtectionFlag::ExecuteWriteCopy => (PROT_READ + PROT_WRITE + PROT_EXEC) as u32,
        _ => 0,
    }
}

/// The protection set of a mapping listing's `r`, `w` and `x` permissions.
pub open spec fn listing_protection(read: bool, write: bool, exec: bool) -> Protection {
    let base = if exec {
        if write {
            ProtectionFlag::ExecuteReadWrite
        } else if read {
            ProtectionFlag::ExecuteRead
        } else {
            ProtectionFlag::Execute
        }
    } else if write {
        ProtectionFlag::ReadWrite
    } else if read {
        ProtectionFlag::ReadOnly
    } else {
        ProtectionFlag::NoAccess
    };
    Protection { base, guard: false, no_cache: false, write_combine: false }
}

/// Encodes a valid protection set as a Windows page-protection value.
pub fn to_windows(p: Protection) -> (r: u32)
    requires
        p.wf(),
    ensures
        r == windows_value(p),
{
    let b: u32 = match p.base {
        ProtectionFlag::NoAccess => 0x01,
        ProtectionFlag::ReadOnly => 0x02,
        ProtectionFlag::ReadWrite => 0x04,
        ProtectionFlag::WriteCopy => 0x08,
        ProtectionFlag::Execute => 0x10,
        ProtectionFlag::ExecuteRead => 0x20,
        ProtectionFlag::ExecuteReadWrite => 0x40,
        ProtectionFlag::ExecuteWriteCopy => 0x80,
        _ => 0,
    };
    let g: u32 = if p.guard { PAGE_GUARD } else { 0 };
    let n: u32 = if p.no_cache { PAGE_NOCACHE } else { 0 };
    let w: u32 = if p.write_combine { PAGE_WRITECOMBINE } else { 0 };
    b + g + n + w
}

/// Decodes a Windows page-protection value; `None` when it names no valid
/// protection set.
pub fn from_windows(v: u32) -> (r: Option<Protection>)
    ensures
        r == windows_decode(v),
        r is Some ==> r->0.wf(),
{
    let m: u32 = v / 0x100;
    let low: u32 = v % 0x100;
    let b = if low == 0x01 {
        ProtectionFlag::NoAccess
    } else if low == 0x02 {
        ProtectionFlag::ReadOnly
    } else if low == 0x04 {
        ProtectionFlag::ReadWrite
    } else if low == 0x08 {
        ProtectionFlag::WriteCopy
    } else if low == 0x10 {
        ProtectionFlag::Execute
    } else if low == 0x20 {
        ProtectionFlag::ExecuteRead
    } else if low == 0x40 {
        ProtectionFlag::ExecuteReadWrite
    } else if low == 0x80 {
        ProtectionFlag::ExecuteWriteCopy
    } else {
        return None;
    };
    let write_copy = b == ProtectionFlag::WriteCopy || b == ProtectionFlag::ExecuteWriteCopy;
    if m >= 8 || (m % 2 == 1 && write_copy) {
        None
    } else {
        Some(Protection { base: b, guard: m % 2 == 1, no_cache: (m / 2) % 2 == 1, write_combine: m / 4 == 1 })
    }
}

/// Encodes a protection set as POSIX `PROT_*` bits.
pub fn to_posix(p: Protection) -> (r: u32)
    ensures
        r == posix_value(p),
{
    match p.base {
        ProtectionFlag::NoAccess => 0,
        ProtectionFlag::ReadOnly => PROT_READ,
        ProtectionFlag::ReadWrite => PROT_READ + PROT_WRITE,
        ProtectionFlag::WriteCopy => PROT_READ + PROT_WRITE,
        ProtectionFlag::Execute => PROT_EXEC,
        ProtectionFlag::ExecuteRead => PROT_READ + PROT_EXEC,
        ProtectionFlag::ExecuteReadWrite => PROT_READ + PROT_WRITE + PROT_EXEC,
        ProtectionFlag::ExecuteWriteCopy => PROT_READ + PROT_WRITE + PROT_EXEC,
        _ => 0,
    }
}

/// Decoding the Windows value of a valid protection set gives that set back.
pub proof fn lemma_windows_round_trip(p: Protection)
    requires
        p.wf(),
    ensures
        windows_decode(windows_value(p)) == Some(p),
{
    let b = windows_base(p.base) as int;
    let m: int = (if p.guard { 1int } else { 0 }) + (if p.no_cache { 2int } else { 0 }) + (if p.write_combine {
        4int
    } else {
        0
    });
    assert(0 < b < 0x100);
    assert(0 <= m < 8);
    assert(windows_value(p) == b + 0x100 * m);
    assert((b + 0x100 * m) / 0x100 == m && (b + 0x100 * m) % 0x100 == b) by (nonlinear_arith)
        requires
            0 < b < 0x100,
            0 <= m < 8,
    ;
}

/// The protection read from a listing's permissions is always a valid set, and
/// its POSIX bits are exactly those permissions (a write-only mapping counting as
/// read-write).
pub proof fn lemma_listing_posix(read: bool, write: bool, exec: bool)
    ensures
        listing_protection(read, write, exec).wf(),
        posix_value(listing_protection(read, write, exec)) == (if read || write { PROT_READ } else { 0 })
            + (if write { PROT_WRITE } else { 0 }) + (if exec { PROT_EXEC } else { 0 }),
{
}

} // verus!
