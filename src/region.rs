use vstd::prelude::*;
use crate::protection::Protection;

verus! {

/// A contiguous, homogeneously protected span of the target's address space.
#[derive(Debug)]
pub struct MemoryRegion {
    pub start: u64,
    pub end: u64,
    pub protection: Protection,
    /// The offset into the backing object, when the region has one.
    pub offset: Option<u64>,
    /// The backing object's path or name, as raw bytes; `None` for anonymous memory.
    pub path: Option<Vec<u8>>,
}

/// The value of a `MemoryRegion`.
pub struct RegionView {
    pub start: u64,
    pub end: u64,
    pub protection: Protection,
    pub offset: Option<u64>,
    pub path: Option<Seq<u8>>,
}

impl View for MemoryRegion {
    type V = RegionView;

    open spec fn view(&self) -> RegionView {
        RegionView {
            start: self.start,
            end: self.end,
            protection: self.protection,
            offset: self.offset,
            path: match self.path {
                Some(p) => Some(p@),
                None => None,
            },
        }
    }
}

impl RegionView {
    pub open spec fn size(self) -> nat {
        if self.start <= self.end {
            (self.end - self.start) as nat
        } else {
            0
        }
    }

    pub open spec fn wf(self) -> bool {
        self.start < self.end && self.protection.wf()
    }
}

impl MemoryRegion {
    /// The number of bytes the region spans.
    pub fn size(&self) -> (r: u64)
        ensures
            r == self@.size(),
    {
        if self.start <= self.end {
            self.end - self.start
        } else {
            0
        }
    }
}

pub open spec fn table_view(t: Seq<MemoryRegion>) -> Seq<RegionView> {
    t.map_values(|r: MemoryRegion| r@)
}

/// A region table: every region well formed, and the regions sorted by start
/// address and pairwise disjoint.
pub open spec fn table_wf(t: Seq<RegionView>) -> bool {
    &&& forall|i: int| 0 <= i < t.len() ==> (#[trigger] t[i]).wf()
    &&& forall|i: int, j: int| 0 <= i < j < t.len() ==> (#[trigger] t[i]).end <= (#[trigger] t[j]).start
}

} // verus!
