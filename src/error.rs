use vstd::prelude::*;

verus! {

/// Every failure the engine reports, with the address, region or size it concerns.
#[derive(Clone, Copy, Debug, PartialEq, Eq, Structural)]
pub enum EngineError {
    /// The session could not be established for this process identifier.
    AttachError { pid: u32 },
    /// The session is closed (or was never opened).
    NotAttached,
    /// The mapping listing could not be obtained.
    EnumerationError { pid: u32 },
    /// The region at this table index does not exist (any more).
    RegionUnavailable { index: usize },
    /// A transfer moved fewer (or more) bytes than requested.
    IoError { address: u64, requested: u64, transferred: u64 },
    /// A write payload does not have the size of its target region.
    SizeMismatch { index: usize, expected: u64, actual: u64 },
    /// A protection specifier holds an unknown name or an illegal combination.
    InvalidProtectionSpec,
    /// The platform refused a validated protection change on this range.
    ProtectionError { start: u64, end: u64 },
    /// The platform refused (or mis-reported) an allocation.
    AllocationError { hint: u64, size: u64 },
}

} // verus!
