use vstd::prelude::*;
use vstd::string::StringSliceAdditionalSpecFns;
use crate::maps::{hex_value, is_hex_digit, scan_hex_run};

verus! {

pub const PLUS: u8 = 0x2b;

/// The digits of a number: what follows an optional leading `+`.
pub open spec fn digits_part(s: Seq<u8>) -> Seq<u8> {
    if s.len() > 0 && s[0] == PLUS {
        s.drop_first()
    } else {
        s
    }
}

/// The number written in hexadecimal by `s`: an optional `+`, then one or more
/// hexadecimal digits of either case.
pub open spec fn hex_number(s: Seq<u8>) -> Option<nat> {
    let d = digits_part(s);
    if d.len() > 0 && forall|i: int| 0 <= i < d.len() ==> is_hex_digit(#[trigger] d[i]) {
        Some(hex_value(d))
    } else {
        None
    }
}

fn hex_u64(s: &[u8]) -> (r: Option<u64>)
    ensures
        match hex_number(s@) {
            Some(v) => if v <= u64::MAX {
                r == Some(v as u64)
            } else {
                r is None
            },
            None => r is None,
        },
{
    let first: usize = if s.len() > 0 && s[0] == PLUS { 1 } else { 0 };
    let ghost d = s@.subrange(first as int, s@.len() as int);
    assert(d =~= digits_part(s@));
    let (k, value) = scan_hex_run(s, first);
    if k < s.len() {
        assert(!is_hex_digit(d[k - first]));
        return None;
    }
    if k == first {
        return None;
    }
    assert(s@.subrange(first as int, k as int) =~= d);
    assert forall|i: int| 0 <= i < d.len() implies is_hex_digit(#[trigger] d[i]) by {
        assert(d[i] == s@[first + i]);
    }
    value
}

/// Reads an address written in hexadecimal without a prefix.
pub fn parse_hex_usize(value: &str) -> (r: Option<usize>)
    ensures
        match hex_number(value.spec_bytes()) {
            Some(v) => if v <= usize::MAX {
                r == Some(v as usize)
            } else {
                r is None
            },
            None => r is None,
        },
{
    match hex_u64(value.as_bytes()) {
        None => None,
        Some(v) => {
            if v as u128 <= usize::MAX as u128 {
                Some(v as usize)
            } else {
                None
            }
        },
    }
}

/// Reads one byte written as hexadecimal digits, such as `7f`.
pub fn parse_hex_vector(value: &str) -> (r: Option<u8>)
    ensures
        match hex_number(value.spec_bytes()) {
            Some(v) => if v <= u8::MAX {
                r == Some(v as u8)
            } else {
                r is None
            },
            None => r is None,
        },
{
    match hex_u64(value.as_bytes()) {
        None => None,
        Some(v) => {
            if v <= 0xff {
                Some(v as u8)
            } else {
                None
            }
        },
    }
}

} // verus!
