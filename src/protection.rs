use vstd::prelude::*;
use vstd::string::StringSliceAdditionalSpecFns;
use crate::error::EngineError;
use crate::text::{piece_end, find_sep, range_equals};

verus! {

/// A named capability bit of the uniform protection vocabulary.
#[derive(Clone, Copy, Debug, PartialEq, Eq, Structural)]
pub enum ProtectionFlag {
    NoAccess,
    ReadOnly,
    ReadWrite,
    WriteCopy,
    Execute,
    ExecuteRead,
    ExecuteReadWrite,
    ExecuteWriteCopy,
    Guard,
    NoCache,
    WriteCombine,
}

/// A protection set: exactly one base-access flag and any of the modifiers.
#[derive(Clone, Copy, Debug, PartialEq, Eq, Structural)]
pub struct Protection {
    pub base: ProtectionFlag,
    pub guard: bool,
    pub no_cache: bool,
    pub write_combine: bool,
}

/// The flag separator of a protection specifier.
pub const SEPARATOR: u8 = 0x7c;

pub open spec fn is_base(f: ProtectionFlag) -> bool {
    !(f is Guard || f is NoCache || f is WriteCombine)
}

pub open spec fn is_write_copy(f: ProtectionFlag) -> bool {
    f is WriteCopy || f is ExecuteWriteCopy
}

impl Protection {
    /// A protection set is valid when its base flag is a base-access flag and a
    /// guard is not combined with a copy-on-write base.
    pub open spec fn wf(self) -> bool {
        is_base(self.base) && !(self.guard && is_write_copy(self.base))
    }

    /// The flags of this protection, as a set.
    pub open spec fn flags(self) -> Set<ProtectionFlag> {
        set![self.base]
            .union(if self.guard { set![ProtectionFlag::Guard] } else { Set::empty() })
            .union(if self.no_cache { set![ProtectionFlag::NoCache] } else { Set::empty() })
            .union(if self.write_combine { set![ProtectionFlag::WriteCombine] } else { Set::empty() })
    }

    /// Plain read-write memory with no modifiers.
    pub fn read_write() -> (r: Protection)
        ensures
            r == (Protection { base: ProtectionFlag::ReadWrite, guard: false, no_cache: false, write_combine: false }),
            r.wf(),
            r.flags() == set![ProtectionFlag::ReadWrite],
    {
        let r = Protection { base: ProtectionFlag::ReadWrite, guard: false, no_cache: false, write_combine: false };
        assert(r.flags() =~= set![ProtectionFlag::ReadWrite]);
        r
    }
}

/// The ASCII name of each flag in a protection specifier.
pub open spec fn flag_name(f: ProtectionFlag) -> Seq<u8> {
    match f {
        ProtectionFlag::NoAccess => seq![78u8, 79, 65, 67, 67, 69, 83, 83],
        ProtectionFlag::ReadOnly => seq![82u8, 69, 65, 68, 79, 78, 76, 89],
        ProtectionFlag::ReadWrite => seq![82u8, 69, 65, 68, 87, 82, 73, 84, 69],
        ProtectionFlag::WriteCopy => seq![87u8, 82, 73, 84, 69, 67, 79, 80, 89],
        ProtectionFlag::Execute => seq![69u8, 88, 69, 67, 85, 84, 69],
        ProtectionFlag::ExecuteRead => seq![
            69u8, 88, 69, 67, 85, 84, 69, 95, 82, 69, 65, 68,
        ],
        ProtectionFlag::ExecuteReadWrite => seq![
            69u8, 88, 69, 67, 85, 84, 69, 95, 82, 69, 65, 68, 87, 82,
            73, 84, 69,
        ],
        ProtectionFlag::ExecuteWriteCopy => seq![
            69u8, 88, 69, 67, 85, 84, 69, 95, 87, 82, 73, 84, 69, 67,
            79, 80, 89,
        ],
        ProtectionFlag::Guard => seq![71u8, 85, 65, 82, 68],
        ProtectionFlag::NoCache => seq![78u8, 79, 67, 65, 67, 72, 69],
        ProtectionFlag::WriteCombine => seq![
            87u8, 82, 73, 84, 69, 67, 79, 77, 66, 73, 78, 69,
        ],
    }
}

/// All flags, in declaration order.
pub open spec fn all_flags() -> Seq<ProtectionFlag> {
    seq![
        ProtectionFlag::NoAccess,
        ProtectionFlag::ReadOnly,
        ProtectionFlag::ReadWrite,
        ProtectionFlag::WriteCopy,
        ProtectionFlag::Execute,
        ProtectionFlag::ExecuteRead,
        ProtectionFlag::ExecuteReadWrite,
        ProtectionFlag::ExecuteWriteCopy,
        ProtectionFlag::Guard,
        ProtectionFlag::NoCache,
        ProtectionFlag::WriteCombine,
    ]
}

/// The flag whose name is exactly `t`, if any.
pub open spec fn token_flag(t: Seq<u8>) -> Option<ProtectionFlag> {
    if exists|f: ProtectionFlag| flag_name(f) == t {
        Some(choose|f: ProtectionFlag| flag_name(f) == t)
    } else {
        None
    }
}

pub fn flag_name_bytes(f: ProtectionFlag) -> (r: Vec<u8>)
    ensures
        r@ == flag_name(f),
{
    let r = match f {
        ProtectionFlag::NoAccess => vec![78u8, 79, 65, 67, 67, 69, 83, 83],
        ProtectionFlag::ReadOnly => vec![82u8, 69, 65, 68, 79, 78, 76, 89],
        ProtectionFlag::ReadWrite => vec![82u8, 69, 65, 68, 87, 82, 73, 84, 69],
        ProtectionFlag::WriteCopy => vec![87u8, 82, 73, 84, 69, 67, 79, 80, 89],
        ProtectionFlag::Execute => vec![69u8, 88, 69, 67, 85, 84, 69],
        ProtectionFlag::ExecuteRead => vec![
            69u8, 88, 69, 67, 85, 84, 69, 95, 82, 69, 65, 68,
        ],
        ProtectionFlag::ExecuteReadWrite => vec![
            69u8, 88, 69, 67, 85, 84, 69, 95, 82, 69, 65, 68, 87, 82,
            73, 84, 69,
        ],
        ProtectionFlag::ExecuteWriteCopy => vec![
            69u8, 88, 69, 67, 85, 84, 69, 95, 87, 82, 73, 84, 69, 67,
            79, 80, 89,
        ],
        ProtectionFlag::Guard => vec![71u8, 85, 65, 82, 68],
        ProtectionFlag::NoCache => vec![78u8, 79, 67, 65, 67, 72, 69],
        ProtectionFlag::WriteCombine => vec![
            87u8, 82, 73, 84, 69, 67, 79, 77, 66, 73, 78, 69,
        ],
    };
    assert(r@ =~= flag_name(f));
    r
}

proof fn lemma_flag_name_injective(f: ProtectionFlag, g: ProtectionFlag)
    requires
        flag_name(f) == flag_name(g),
    ensures
        f == g,
{
    let a = flag_name(f);
    let b = flag_name(g);
    assert(a.len() == b.len());
    assert(a[0] == b[0]);
    if a.len() > 8 {
        assert(a[8] == b[8]);
    }
}

proof fn lemma_all_flags_complete(f: ProtectionFlag)
    ensures
        all_flags().contains(f),
{
    let a = all_flags();
    match f {
        ProtectionFlag::NoAccess => assert(a[0] == f),
        ProtectionFlag::ReadOnly => assert(a[1] == f),
        ProtectionFlag::ReadWrite => assert(a[2] == f),
        ProtectionFlag::WriteCopy => assert(a[3] == f),
        ProtectionFlag::Execute => assert(a[4] == f),
        ProtectionFlag::ExecuteRead => assert(a[5] == f),
        ProtectionFlag::ExecuteReadWrite => assert(a[6] == f),
        ProtectionFlag::ExecuteWriteCopy => assert(a[7] == f),
        ProtectionFlag::Guard => assert(a[8] == f),
        ProtectionFlag::NoCache => assert(a[9] == f),
        ProtectionFlag::WriteCombine => assert(a[10] == f),
    }
}

/// Decodes the flag whose name is `s[lo..hi]`.
pub fn decode_token(s: &[u8], lo: usize, hi: usize) -> (r: Option<ProtectionFlag>)
    requires
        lo <= hi <= s@.len(),
    ensures
        r == token_flag(s@.subrange(lo as int, hi as int)),
{
    let ghost t = s@.subrange(lo as int, hi as int);
    let all: Vec<ProtectionFlag> = vec![
        ProtectionFlag::NoAccess,
        ProtectionFlag::ReadOnly,
        ProtectionFlag::ReadWrite,
        ProtectionFlag::WriteCopy,
        ProtectionFlag::Execute,
        ProtectionFlag::ExecuteRead,
        ProtectionFlag::ExecuteReadWrite,
        ProtectionFlag::ExecuteWriteCopy,
        ProtectionFlag::Guard,
        ProtectionFlag::NoCache,
        ProtectionFlag::WriteCombine,
    ];
    assert(all@ =~= all_flags());
    let mut k: usize = 0;
    while k < all.len()
        invariant
            all@ == all_flags(),
            0 <= k <= all@.len(),
            lo <= hi <= s@.len(),
            t == s@.subrange(lo as int, hi as int),
            forall|m: int| 0 <= m < k ==> flag_name(#[trigger] all_flags()[m]) != t,
        decreases all@.len() - k,
    {
        let name = flag_name_bytes(all[k]);
        if range_equals(s, lo, hi, name.as_slice()) {
            proof {
                let f = all@[k as int];
                assert(flag_name(f) == t);
                let g = choose|g: ProtectionFlag| flag_name(g) == t;
                lemma_flag_name_injective(f, g);
            }
            return Some(all[k]);
        }
        k = k + 1;
    }
    proof {
        assert forall|f: ProtectionFlag| flag_name(f) != t by {
            lemma_all_flags_complete(f);
        }
    }
    None
}

/// What has been read of a protection specifier so far.
#[derive(Clone, Copy, Debug, PartialEq, Eq, Structural)]
pub struct FlagScan {
    pub base: Option<ProtectionFlag>,
    /// Two different base-access flags were named.
    pub conflict: bool,
    pub guard: bool,
    pub no_cache: bool,
    pub write_combine: bool,
}

pub open spec fn empty_scan() -> FlagScan {
    FlagScan { base: None, conflict: false, guard: false, no_cache: false, write_combine: false }
}

pub open spec fn add_flag(a: FlagScan, f: ProtectionFlag) -> FlagScan {
    match f {
        ProtectionFlag::Guard => FlagScan { guard: true, ..a },
        ProtectionFlag::NoCache => FlagScan { no_cache: true, ..a },
        ProtectionFlag::WriteCombine => FlagScan { write_combine: true, ..a },
        _ => match a.base {
            None => FlagScan { base: Some(f), ..a },
            Some(b) => FlagScan { conflict: a.conflict || b != f, ..a },
        },
    }
}

/// Reads the names separated by `|` from index `i` on; `None` on an unknown name.
pub open spec fn scan_flags(s: Seq<u8>, i: int, a: FlagScan) -> Option<FlagScan>
    decreases s.len() - i,
{
    if i < 0 || i > s.len() {
        None
    } else {
        let e = piece_end(s, i, SEPARATOR);
        match token_flag(s.subrange(i, e)) {
            None => None,
            Some(f) => if i <= e < s.len() {
                scan_flags(s, e + 1, add_flag(a, f))
            } else {
                Some(add_flag(a, f))
            },
        }
    }
}

/// The protection that a complete scan stands for: exactly one base-access flag,
/// and no guard on a copy-on-write base.
pub open spec fn finish_scan(a: FlagScan) -> Option<Protection> {
    match a.base {
        None => None,
        Some(b) => if a.conflict || (a.guard && is_write_copy(b)) {
            None
        } else {
            Some(Protection { base: b, guard: a.guard, no_cache: a.no_cache, write_combine: a.write_combine })
        },
    }
}

/// The protection named by a specifier such as `EXECUTE_READ|GUARD`, if it is valid.
pub open spec fn parse_protection_spec(s: Seq<u8>) -> Option<Protection> {
    match scan_flags(s, 0, empty_scan()) {
        None => None,
        Some(a) => finish_scan(a),
    }
}

fn add_flag_exec(a: FlagScan, f: ProtectionFlag) -> (r: FlagScan)
    ensures
        r == add_flag(a, f),
{
    match f {
        ProtectionFlag::Guard => FlagScan { guard: true, ..a },
        ProtectionFlag::NoCache => FlagScan { no_cache: true, ..a },
        ProtectionFlag::WriteCombine => FlagScan { write_combine: true, ..a },
        _ => match a.base {
            None => FlagScan { base: Some(f), ..a },
            Some(b) => FlagScan { conflict: a.conflict || b != f, ..a },
        },
    }
}

/// Parses a protection specifier: flag names joined by `|`. Unknown names, a
/// missing or repeated-but-different base-access flag, and a guard on a
/// copy-on-write base are rejected.
pub fn parse_protection(spec: &str) -> (r: Result<Protection, EngineError>)
    ensures
        r == match parse_protection_spec(spec.spec_bytes()) {
            Some(p) => Ok(p),
            None => Err(EngineError::InvalidProtectionSpec),
        },
        r is Ok ==> r->Ok_0.wf(),
{
    let s = spec.as_bytes();
    let mut a = FlagScan { base: None, conflict: false, guard: false, no_cache: false, write_combine: false };
    let mut i: usize = 0;
    loop
        invariant
            s@ == spec.spec_bytes(),
            0 <= i <= s@.len(),
            scan_flags(s@, i as int, a) == scan_flags(s@, 0, empty_scan()),
            a.base is Some ==> is_base(a.base->0),
        ensures
            scan_flags(s@, 0, empty_scan()) == Some(a),
            a.base is Some ==> is_base(a.base->0),
        decreases s@.len() - i,
    {
        let e = find_sep(s, i, SEPARATOR);
        match decode_token(s, i, e) {
            None => {
                return Err(EngineError::InvalidProtectionSpec);
            },
            Some(f) => {
                a = add_flag_exec(a, f);
                if e < s.len() {
                    i = e + 1;
                } else {
                    break;
                }
            },
        }
    }
    match a.base {
        None => Err(EngineError::InvalidProtectionSpec),
        Some(b) => {
            if a.conflict || (a.guard && (b == ProtectionFlag::WriteCopy || b == ProtectionFlag::ExecuteWriteCopy)) {
                Err(EngineError::InvalidProtectionSpec)
            } else {
                Ok(Protection { base: b, guard: a.guard, no_cache: a.no_cache, write_combine: a.write_combine })
            }
        },
    }
}

} // verus!
