use vstd::prelude::*;
use vstd::string::StringSliceAdditionalSpecFns;
use crate::error::EngineError;
use crate::maps::{enumerate, enumerate_spec};
use crate::native::{to_posix, to_windows, posix_value, windows_value};
use crate::protection::{Protection, parse_protection, parse_protection_spec};
use crate::region::{MemoryRegion, RegionView, table_view, table_wf};

verus! {

/// A byte range of the target that the platform is asked to read or write.
#[derive(Clone, Copy, Debug, PartialEq, Eq, Structural)]
pub struct Transfer {
    pub address: u64,
    pub length: u64,
}

/// A validated protection change for the platform to apply.
#[derive(Clone, Copy, Debug, PartialEq, Eq, Structural)]
pub struct ProtectionChange {
    pub index: usize,
    pub start: u64,
    pub end: u64,
    pub protection: Protection,
    /// The protection as a Windows page-protection value.
    pub windows: u32,
    /// The protection as POSIX `PROT_*` bits.
    pub posix: u32,
}

/// A validated allocation request for the platform to carry out.
#[derive(Clone, Copy, Debug, PartialEq, Eq, Structural)]
pub struct AllocationRequest {
    pub hint: u64,
    pub size: u64,
}

/// The attachment to one target process and its region table.
pub struct Session {
    pid: u32,
    attached: bool,
    table: Vec<MemoryRegion>,
    /// How many leading entries of the table came from the last enumeration;
    /// allocated regions follow them.
    enumerated: usize,
    /// How many listing lines the last enumeration skipped.
    skipped: usize,
}

pub struct SessionView {
    pub pid: u32,
    pub attached: bool,
    pub table: Seq<RegionView>,
    pub enumerated: nat,
    pub skipped: nat,
}

impl View for Session {
    type V = SessionView;

    closed spec fn view(&self) -> SessionView {
        SessionView {
            pid: self.pid,
            attached: self.attached,
            table: table_view(self.table@),
            enumerated: self.enumerated as nat,
            skipped: self.skipped as nat,
        }
    }
}

impl SessionView {
    /// Every region is well formed, and the enumerated part of the table is
    /// sorted and disjoint. Allocated regions are appended after it in the order
    /// they were granted.
    pub open spec fn wf(self) -> bool {
        &&& self.pid > 0
        &&& self.enumerated <= self.table.len()
        &&& table_wf(self.table.subrange(0, self.enumerated as int))
        &&& forall|i: int| 0 <= i < self.table.len() ==> (#[trigger] self.table[i]).wf()
    }
}

/// A region is still mapped when a fresh table holds a region with its bounds.
pub open spec fn still_mapped(r: RegionView, fresh: Seq<RegionView>) -> bool {
    exists|j: int| 0 <= j < fresh.len() && (#[trigger] fresh[j]).start == r.start && fresh[j].end == r.end
}

/// The region at `index`, checked against a fresh enumeration.
pub open spec fn region_outcome(s: SessionView, index: int, fresh: Seq<RegionView>) -> Result<RegionView, EngineError> {
    if !s.attached {
        Err(EngineError::NotAttached)
    } else if index < 0 || index >= s.table.len() || !still_mapped(s.table[index], fresh) {
        Err(EngineError::RegionUnavailable { index: index as usize })
    } else {
        Ok(s.table[index])
    }
}

pub open spec fn read_region_outcome(s: SessionView, index: int, fresh: Seq<RegionView>) -> Result<Transfer, EngineError> {
    match region_outcome(s, index, fresh) {
        Err(e) => Err(e),
        Ok(r) => Ok(Transfer { address: r.start, length: r.size() as u64 }),
    }
}

pub open spec fn read_address_outcome(s: SessionView, address: u64, length: u64) -> Result<Transfer, EngineError> {
    if !s.attached {
        Err(EngineError::NotAttached)
    } else {
        Ok(Transfer { address, length })
    }
}

/// Writing `len` bytes into the region at `index`: the size is checked against the
/// table before the region is looked up in the fresh enumeration.
pub open spec fn write_region_outcome(s: SessionView, index: int, len: nat, fresh: Seq<RegionView>) -> Result<Transfer, EngineError> {
    if !s.attached {
        Err(EngineError::NotAttached)
    } else if index < 0 || index >= s.table.len() {
        Err(EngineError::RegionUnavailable { index: index as usize })
    } else if len != s.table[index].size() {
        Err(EngineError::SizeMismatch { index: index as usize, expected: s.table[index].size() as u64, actual: len as u64 })
    } else {
        read_region_outcome(s, index, fresh)
    }
}

pub open spec fn write_address_outcome(s: SessionView, address: u64, len: nat) -> Result<Transfer, EngineError> {
    read_address_outcome(s, address, len as u64)
}

/// The outcome of a transfer that moved `moved` bytes.
pub open spec fn transfer_outcome(t: Transfer, moved: nat) -> Result<(), EngineError> {
    if moved == t.length {
        Ok(())
    } else {
        Err(EngineError::IoError { address: t.address, requested: t.length, transferred: moved as u64 })
    }
}

pub open spec fn protection_outcome(s: SessionView, index: int, spec: Seq<u8>) -> Result<ProtectionChange, EngineError> {
    if !s.attached {
        Err(EngineError::NotAttached)
    } else if index < 0 || index >= s.table.len() {
        Err(EngineError::RegionUnavailable { index: index as usize })
    } else {
        match parse_protection_spec(spec) {
            None => Err(EngineError::InvalidProtectionSpec),
            Some(p) => Ok(
                ProtectionChange {
                    index: index as usize,
                    start: s.table[index].start,
                    end: s.table[index].end,
                    protection: p,
                    windows: windows_value(p),
                    posix: posix_value(p),
                },
            ),
        }
    }
}

pub open spec fn allocation_outcome(s: SessionView, hint: u64, size: u64) -> Result<AllocationRequest, EngineError> {
    if !s.attached {
        Err(EngineError::NotAttached)
    } else if size == 0 {
        Err(EngineError::AllocationError { hint, size })
    } else {
        Ok(AllocationRequest { hint, size })
    }
}

/// `size` rounded up to a multiple of `page`.
pub open spec fn round_up(size: int, page: int) -> int {
    if size % page == 0 {
        size
    } else {
        size - size % page + page
    }
}

/// The region that an allocation granted at `start` occupies: the request rounded
/// up to whole pages. `None` when the answer cannot describe a region (no page
/// size, an empty request, or an end beyond the address space).
pub open spec fn granted_region(req: AllocationRequest, start: u64, page: u64) -> Option<RegionView> {
    if page > 0 && req.size > 0 && start + round_up(req.size as int, page as int) <= u64::MAX {
        Some(
            RegionView {
                start,
                end: (start + round_up(req.size as int, page as int)) as u64,
                protection: Protection {
                    base: crate::protection::ProtectionFlag::ReadWrite,
                    guard: false,
                    no_cache: false,
                    write_combine: false,
                },
                offset: None,
                path: None,
            },
        )
    } else {
        None
    }
}

fn still_mapped_exec(start: u64, end: u64, fresh: &Vec<MemoryRegion>) -> (r: bool)
    ensures
        r == exists|j: int|
            0 <= j < fresh@.len() && (#[trigger] table_view(fresh@)[j]).start == start && table_view(fresh@)[j].end
                == end,
{
    let mut k: usize = 0;
    while k < fresh.len()
        invariant
            0 <= k <= fresh@.len(),
            forall|j: int|
                0 <= j < k ==> !((#[trigger] table_view(fresh@)[j]).start == start && table_view(fresh@)[j].end == end),
        decreases fresh@.len() - k,
    {
        if fresh[k].start == start && fresh[k].end == end {
            assert(table_view(fresh@)[k as int] == fresh@[k as int]@);
            return true;
        }
        k = k + 1;
    }
    false
}

impl Session {
    /// Opens a session on process `pid`, whose attachment the platform has just
    /// established, with the region table read from `listing`. A pid of zero names
    /// no process.
    pub fn open(pid: u32, listing: &[u8]) -> (r: Result<Session, EngineError>)
        ensures
            pid == 0 ==> r == Err::<Session, EngineError>(EngineError::AttachError { pid }),
            pid != 0 ==> r is Ok,
            r is Ok ==> {
                let s = r->Ok_0@;
                &&& s.wf()
                &&& s.pid == pid
                &&& s.attached
                &&& s.table == enumerate_spec(listing@).0
                &&& s.enumerated == s.table.len()
                &&& s.skipped == enumerate_spec(listing@).1
            },
    {
        if pid == 0 {
            return Err(EngineError::AttachError { pid });
        }
        let e = enumerate(listing);
        let n = e.regions.len();
        let s = Session { pid, attached: true, table: e.regions, enumerated: n, skipped: e.skipped };
        assert(s@.table.subrange(0, n as int) =~= s@.table);
        Ok(s)
    }

    /// How many listing lines the last enumeration skipped as malformed or out of
    /// order.
    pub fn skipped_lines(&self) -> (r: usize)
        ensures
            r == self@.skipped,
    {
        self.skipped
    }

    /// How many leading regions of the table came from the last enumeration.
    pub fn enumerated_len(&self) -> (r: usize)
        ensures
            r == self@.enumerated,
    {
        self.enumerated
    }

    pub fn pid(&self) -> (r: u32)
        ensures
            r == self@.pid,
    {
        self.pid
    }

    pub fn is_attached(&self) -> (r: bool)
        ensures
            r == self@.attached,
    {
        self.attached
    }

    /// The current region table.
    pub fn snapshot(&self) -> (r: &Vec<MemoryRegion>)
        ensures
            table_view(r@) == self@.table,
    {
        &self.table
    }

    /// Releases the session; every later operation fails with `NotAttached`.
    pub fn close(&mut self)
        requires
            old(self)@.wf(),
        ensures
            final(self)@.wf(),
            !final(self)@.attached,
            final(self)@.pid == old(self)@.pid,
            final(self)@.table.len() == 0,
    {
        self.attached = false;
        self.table = Vec::new();
        self.enumerated = 0;
        assert(table_view(self.table@) =~= Seq::<RegionView>::empty());
        assert(self@.table.subrange(0, 0) =~= Seq::<RegionView>::empty());
    }

    /// Replaces the region table with the one read from a fresh `listing`, and
    /// returns how many of its lines were skipped.
    pub fn re_enumerate(&mut self, listing: &[u8]) -> (r: Result<usize, EngineError>)
        requires
            old(self)@.wf(),
        ensures
            final(self)@.wf(),
            final(self)@.pid == old(self)@.pid,
            final(self)@.attached == old(self)@.attached,
            !old(self)@.attached ==> r == Err::<usize, EngineError>(EngineError::NotAttached) && final(self)@
                == old(self)@,
            old(self)@.attached ==> r == Ok::<usize, EngineError>(enumerate_spec(listing@).1 as usize)
                && final(self)@.table == enumerate_spec(listing@).0 && final(self)@.enumerated
                == final(self)@.table.len() && final(self)@.skipped == enumerate_spec(listing@).1,
    {
        if !self.attached {
            return Err(EngineError::NotAttached);
        }
        let e = enumerate(listing);
        self.enumerated = e.regions.len();
        self.skipped = e.skipped;
        self.table = e.regions;
        assert(self@.table.subrange(0, self.enumerated as int) =~= self@.table);
        Ok(e.skipped)
    }

    fn checked_region(&self, index: usize, fresh_listing: &[u8]) -> (r: Result<(u64, u64), EngineError>)
        ensures
            match region_outcome(self@, index as int, enumerate_spec(fresh_listing@).0) {
                Err(e) => r == Err::<(u64, u64), EngineError>(e),
                Ok(reg) => r == Ok::<(u64, u64), EngineError>((reg.start, reg.end)),
            },
    {
        if !self.attached {
            return Err(EngineError::NotAttached);
        }
        if index >= self.table.len() {
            return Err(EngineError::RegionUnavailable { index });
        }
        let start = self.table[index].start;
        let end = self.table[index].end;
        assert(self@.table[index as int] == self.table@[index as int]@);
        let fresh = enumerate(fresh_listing);
        if !still_mapped_exec(start, end, &fresh.regions) {
            return Err(EngineError::RegionUnavailable { index });
        }
        Ok((start, end))
    }

    /// The transfer that reads the whole region at `index`, after checking that
    /// the region is still mapped in `fresh_listing`.
    pub fn read_region(&self, index: usize, fresh_listing: &[u8]) -> (r: Result<Transfer, EngineError>)
        ensures
            r == read_region_outcome(self@, index as int, enumerate_spec(fresh_listing@).0),
    {
        match self.checked_region(index, fresh_listing) {
            Err(e) => Err(e),
            Ok((start, end)) => {
                let length = if start <= end { end - start } else { 0 };
                Ok(Transfer { address: start, length })
            },
        }
    }

    /// The transfer that reads `length` bytes at `address`; the span is not
    /// checked against the table.
    pub fn read_address(&self, address: u64, length: u64) -> (r: Result<Transfer, EngineError>)
        ensures
            r == read_address_outcome(self@, address, length),
    {
        if !self.attached {
            return Err(EngineError::NotAttached);
        }
        Ok(Transfer { address, length })
    }

    /// The transfer that writes `data` over the whole region at `index`. A payload
    /// of another size than the region's is refused before anything else is
    /// checked against the target.
    pub fn write_region(&self, index: usize, data: &[u8], fresh_listing: &[u8]) -> (r: Result<Transfer, EngineError>)
        ensures
            r == write_region_outcome(self@, index as int, data@.len(), enumerate_spec(fresh_listing@).0),
    {
        if !self.attached {
            return Err(EngineError::NotAttached);
        }
        if index >= self.table.len() {
            return Err(EngineError::RegionUnavailable { index });
        }
        let size = self.table[index].size();
        assert(self@.table[index as int] == self.table@[index as int]@);
        if data.len() as u64 != size {
            return Err(EngineError::SizeMismatch { index, expected: size, actual: data.len() as u64 });
        }
        self.read_region(index, fresh_listing)
    }

    /// The transfer that writes `data` at `address`.
    pub fn write_address(&self, address: u64, data: &[u8]) -> (r: Result<Transfer, EngineError>)
        ensures
            r == write_address_outcome(self@, address, data@.len()),
    {
        if !self.attached {
            return Err(EngineError::NotAttached);
        }
        Ok(Transfer { address, length: data.len() as u64 })
    }

    /// Checks the bytes that a read transfer brought back: a short or long read
    /// is an error, never a truncated success.
    pub fn finish_read(t: Transfer, data: Vec<u8>) -> (r: Result<Vec<u8>, EngineError>)
        ensures
            transfer_outcome(t, data@.len()) is Ok ==> r is Ok && r->Ok_0@ == data@,
            transfer_outcome(t, data@.len()) is Err ==> r == Err::<Vec<u8>, EngineError>(
                transfer_outcome(t, data@.len())->Err_0,
            ),
    {
        if data.len() as u64 == t.length {
            Ok(data)
        } else {
            Err(EngineError::IoError { address: t.address, requested: t.length, transferred: data.len() as u64 })
        }
    }

    /// Checks the number of bytes that a write transfer moved.
    pub fn finish_write(t: Transfer, written: u64) -> (r: Result<(), EngineError>)
        ensures
            r == transfer_outcome(t, written as nat),
    {
        if written == t.length {
            Ok(())
        } else {
            Err(EngineError::IoError { address: t.address, requested: t.length, transferred: written })
        }
    }
}

/// What a platform answer to a protection change does to the session.
pub open spec fn apply_protection_outcome(s: SessionView, c: ProtectionChange, accepted: bool) -> Result<(), EngineError> {
    if !s.attached {
        Err(EngineError::NotAttached)
    } else if !accepted {
        Err(EngineError::ProtectionError { start: c.start, end: c.end })
    } else if c.index >= s.table.len() || s.table[c.index as int].start != c.start || s.table[c.index as int].end
        != c.end || !c.protection.wf() {
        Err(EngineError::RegionUnavailable { index: c.index })
    } else {
        Ok(())
    }
}

/// The region that a platform answer to an allocation adds to the session:
/// `None` when the platform refused (granted no address).
pub open spec fn allocated_region(req: AllocationRequest, granted: Option<u64>, page: u64) -> Option<RegionView> {
    match granted {
        None => None,
        Some(start) => granted_region(req, start, page),
    }
}

impl Session {
    /// Validates a protection change of the region at `index`: the specifier is
    /// parsed before anything is asked of the target.
    pub fn set_protection(&self, index: usize, spec: &str) -> (r: Result<ProtectionChange, EngineError>)
        ensures
            r == protection_outcome(self@, index as int, spec.spec_bytes()),
    {
        if !self.attached {
            return Err(EngineError::NotAttached);
        }
        if index >= self.table.len() {
            return Err(EngineError::RegionUnavailable { index });
        }
        assert(self@.table[index as int] == self.table@[index as int]@);
        match parse_protection(spec) {
            Err(e) => Err(e),
            Ok(p) => {
                let windows = to_windows(p);
                let posix = to_posix(p);
                Ok(ProtectionChange { index, start: self.table[index].start, end: self.table[index].end, protection: p, windows, posix })
            },
        }
    }

    /// Records the platform's answer to a protection change: on acceptance the
    /// table entry takes the new protection; otherwise the table is unchanged.
    pub fn apply_protection(&mut self, change: ProtectionChange, accepted: bool) -> (r: Result<(), EngineError>)
        requires
            old(self)@.wf(),
        ensures
            final(self)@.wf(),
            final(self)@.pid == old(self)@.pid,
            final(self)@.attached == old(self)@.attached,
            final(self)@.enumerated == old(self)@.enumerated,
            final(self)@.skipped == old(self)@.skipped,
            r == apply_protection_outcome(old(self)@, change, accepted),
            r is Err ==> final(self)@.table == old(self)@.table,
            r is Ok ==> final(self)@.table == old(self)@.table.update(
                change.index as int,
                RegionView { protection: change.protection, ..old(self)@.table[change.index as int] },
            ),
    {
        if !self.attached {
            return Err(EngineError::NotAttached);
        }
        if !accepted {
            return Err(EngineError::ProtectionError { start: change.start, end: change.end });
        }
        if change.index >= self.table.len() {
            return Err(EngineError::RegionUnavailable { index: change.index });
        }
        let i = change.index;
        assert(self@.table[i as int] == self.table@[i as int]@);
        let b = change.protection.base;
        let base_ok = !(b == crate::protection::ProtectionFlag::Guard || b == crate::protection::ProtectionFlag::NoCache
            || b == crate::protection::ProtectionFlag::WriteCombine);
        let copy = b == crate::protection::ProtectionFlag::WriteCopy || b == crate::protection::ProtectionFlag::ExecuteWriteCopy;
        if self.table[i].start != change.start || self.table[i].end != change.end || !base_ok || (change.protection.guard
            && copy) {
            return Err(EngineError::RegionUnavailable { index: i });
        }
        let ghost before = table_view(self.table@);
        let mut reg = self.table.remove(i);
        reg.protection = change.protection;
        self.table.insert(i, reg);
        proof {
            let t = table_view(self.table@);
            assert(t =~= before.update(i as int, RegionView { protection: change.protection, ..before[i as int] }));
            let e = self.enumerated as int;
            let bp = before.subrange(0, e);
            let tp = t.subrange(0, e);
            assert forall|a: int| 0 <= a < tp.len() implies (#[trigger] tp[a]).wf() by {
                assert(before[a].wf());
            }
            assert forall|a: int, c: int| 0 <= a < c < tp.len() implies (#[trigger] tp[a]).end <= (
            #[trigger] tp[c]).start by {
                assert(bp[a].end <= bp[c].start);
            }
            assert forall|a: int| 0 <= a < t.len() implies (#[trigger] t[a]).wf() by {
                assert(before[a].wf());
            }
        }
        Ok(())
    }

    /// Validates an allocation of `size` bytes near `hint`.
    pub fn allocate(&self, hint: u64, size: u64) -> (r: Result<AllocationRequest, EngineError>)
        ensures
            r == allocation_outcome(self@, hint, size),
    {
        if !self.attached {
            return Err(EngineError::NotAttached);
        }
        if size == 0 {
            return Err(EngineError::AllocationError { hint, size });
        }
        Ok(AllocationRequest { hint, size })
    }

    /// Records the platform's answer to an allocation: the address it granted, if
    /// any, and its page size. The new read-write region, rounded up to whole pages,
    /// is appended to the table and its index returned. The table is not checked
    /// against the grant: it is a snapshot, and the platform's answer is authoritative.
    pub fn complete_allocation(&mut self, req: AllocationRequest, granted: Option<u64>, page_size: u64) -> (r: Result<usize, EngineError>)
        requires
            old(self)@.wf(),
        ensures
            final(self)@.wf(),
            final(self)@.pid == old(self)@.pid,
            final(self)@.attached == old(self)@.attached,
            final(self)@.enumerated == old(self)@.enumerated,
            final(self)@.skipped == old(self)@.skipped,
            !old(self)@.attached ==> r == Err::<usize, EngineError>(EngineError::NotAttached),
            old(self)@.attached && allocated_region(req, granted, page_size) is None ==> r == Err::<usize, EngineError>(
                EngineError::AllocationError { hint: req.hint, size: req.size },
            ),
            r is Err ==> final(self)@.table == old(self)@.table,
            old(self)@.attached && allocated_region(req, granted, page_size) is Some ==> r == Ok::<usize, EngineError>(
                old(self)@.table.len() as usize,
            ) && final(self)@.table == old(self)@.table.push(allocated_region(req, granted, page_size)->0),
    {
        if !self.attached {
            return Err(EngineError::NotAttached);
        }
        let err = EngineError::AllocationError { hint: req.hint, size: req.size };
        let start = match granted {
            None => return Err(err),
            Some(a) => a,
        };
        if page_size == 0 || req.size == 0 {
            return Err(err);
        }
        let rem = req.size % page_size;
        assert(rem <= req.size) by (nonlinear_arith)
            requires
                rem == req.size % page_size,
                page_size > 0,
        ;
        let rounded: u64 = if rem == 0 {
            req.size
        } else {
            let base = req.size - rem;
            if base > u64::MAX - page_size {
                return Err(err);
            }
            base + page_size
        };
        if start > u64::MAX - rounded {
            return Err(err);
        }
        let end = start + rounded;
        let ghost t = old(self)@.table;
        let ghost reg = granted_region(req, start, page_size)->0;
        assert(reg.start == start && reg.end == end);
        let k = self.table.len();
        let region = MemoryRegion { start, end, protection: Protection::read_write(), offset: None, path: None };
        self.table.push(region);
        proof {
            let n = table_view(self.table@);
            let e = self.enumerated as int;
            assert(n =~= t.push(reg));
            assert(n.subrange(0, e) =~= t.subrange(0, e));
            assert forall|a: int| 0 <= a < n.len() implies (#[trigger] n[a]).wf() by {
                if a < k {
                    assert(t[a].wf());
                }
            }
        }
        Ok(k)
    }
}

/// Every operation on a closed session fails with `NotAttached`.
pub proof fn lemma_closed_session_refuses(
    s: SessionView,
    index: int,
    fresh: Seq<RegionView>,
    address: u64,
    length: u64,
    len: nat,
    spec: Seq<u8>,
    change: ProtectionChange,
    accepted: bool,
    hint: u64,
    size: u64,
)
    requires
        !s.attached,
    ensures
        read_region_outcome(s, index, fresh) == Err::<Transfer, EngineError>(EngineError::NotAttached),
        read_address_outcome(s, address, length) == Err::<Transfer, EngineError>(EngineError::NotAttached),
        write_region_outcome(s, index, len, fresh) == Err::<Transfer, EngineError>(EngineError::NotAttached),
        write_address_outcome(s, address, len) == Err::<Transfer, EngineError>(EngineError::NotAttached),
        protection_outcome(s, index, spec) == Err::<ProtectionChange, EngineError>(EngineError::NotAttached),
        apply_protection_outcome(s, change, accepted) == Err::<(), EngineError>(EngineError::NotAttached),
        allocation_outcome(s, hint, size) == Err::<AllocationRequest, EngineError>(EngineError::NotAttached),
{
}

/// Writing a payload whose length differs from the region's size fails with
/// `SizeMismatch`, and no transfer is handed to the platform.
pub proof fn lemma_size_mismatch_refused(s: SessionView, index: int, len: nat, fresh: Seq<RegionView>)
    requires
        s.attached,
        0 <= index < s.table.len(),
        len != s.table[index].size(),
    ensures
        write_region_outcome(s, index, len, fresh) == Err::<Transfer, EngineError>(
            EngineError::SizeMismatch { index: index as usize, expected: s.table[index].size() as u64, actual: len as u64 },
        ),
{
}

/// The bytes that a region read brought back can be written back at once: the
/// write targets exactly the range that was read.
pub proof fn lemma_read_then_write_back(s: SessionView, index: int, fresh: Seq<RegionView>, t: Transfer, len: nat)
    requires
        s.wf(),
        read_region_outcome(s, index, fresh) == Ok::<Transfer, EngineError>(t),
        transfer_outcome(t, len) is Ok,
    ensures
        t.length == s.table[index].size(),
        write_region_outcome(s, index, len, fresh) == Ok::<Transfer, EngineError>(t),
{
    assert(s.table[index].wf());
}

/// A granted allocation starts at the granted address, spans at least the
/// requested size in whole pages (so it starts and ends on a page boundary
/// whenever the grant is page aligned), is read-write, and, appended at the end
/// of the table, is at once usable by region reads and writes at that index.
pub proof fn lemma_allocation_granted(
    s: SessionView,
    req: AllocationRequest,
    granted: Option<u64>,
    page: u64,
    fresh: Seq<RegionView>,
)
    requires
        s.attached,
        allocated_region(req, granted, page) is Some,
        still_mapped(allocated_region(req, granted, page)->0, fresh),
    ensures
        ({
            let r = allocated_region(req, granted, page)->0;
            let k = s.table.len() as int;
            let after = SessionView { table: s.table.push(r), ..s };
            &&& r.start == granted->0
            &&& r.size() >= req.size
            &&& r.size() % (page as nat) == 0
            &&& r.start % page == 0 ==> r.end % page == 0
            &&& r.protection.base == crate::protection::ProtectionFlag::ReadWrite
            &&& read_region_outcome(after, k, fresh) == Ok::<Transfer, EngineError>(
                Transfer { address: r.start, length: r.size() as u64 },
            )
            &&& write_region_outcome(after, k, r.size(), fresh) == read_region_outcome(after, k, fresh)
        }),
{
    let r = allocated_region(req, granted, page)->0;
    let size = req.size as int;
    let p = page as int;
    assert(round_up(size, p) >= size && round_up(size, p) % p == 0) by (nonlinear_arith)
        requires
            p > 0,
            size > 0,
            round_up(size, p) == if size % p == 0 {
                size
            } else {
                size - size % p + p
            },
    {
        vstd::arithmetic::div_mod::lemma_fundamental_div_mod(size, p);
    }
    assert(r.size() == round_up(size, p));
    let st = r.start as int;
    let sz = round_up(size, p);
    assert(st % p == 0 ==> (st + sz) % p == 0) by (nonlinear_arith)
        requires
            p > 0,
            sz % p == 0,
    {
        vstd::arithmetic::div_mod::lemma_fundamental_div_mod(st, p);
        vstd::arithmetic::div_mod::lemma_fundamental_div_mod(sz, p);
        if st % p == 0 {
            vstd::arithmetic::div_mod::lemma_mod_multiples_basic(st / p + sz / p, p);
            assert(st + sz == (st / p + sz / p) * p) by (nonlinear_arith)
                requires
                    st == p * (st / p),
                    sz == p * (sz / p),
            ;
        }
    }
    assert(r.end == st + sz);
    let after = SessionView { table: s.table.push(r), ..s };
    assert(after.table[s.table.len() as int] == r);
}

} // verus!
