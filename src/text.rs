use vstd::prelude::*;

verus! {

/// The index of the first `sep` at or after `i`, or the length of `s` if none.
pub open spec fn piece_end(s: Seq<u8>, i: int, sep: u8) -> int
    decreases s.len() - i,
{
    if i >= s.len() {
        s.len() as int
    } else if s[i] == sep {
        i
    } else {
        piece_end(s, i + 1, sep)
    }
}

/// Finds the end of the piece that starts at `i`.
pub fn find_sep(s: &[u8], i: usize, sep: u8) -> (r: usize)
    requires
        i <= s@.len(),
    ensures
        r as int == piece_end(s@, i as int, sep),
        i <= r <= s@.len(),
{
    let mut k: usize = i;
    while k < s.len() && s[k] != sep
        invariant
            i <= k <= s@.len(),
            piece_end(s@, i as int, sep) == piece_end(s@, k as int, sep),
        decreases s@.len() - k,
    {
        k = k + 1;
    }
    k
}

/// True when `s[lo..hi]` holds exactly the bytes of `name`.
pub fn range_equals(s: &[u8], lo: usize, hi: usize, name: &[u8]) -> (r: bool)
    requires
        lo <= hi <= s@.len(),
    ensures
        r == (s@.subrange(lo as int, hi as int) == name@),
{
    if hi - lo != name.len() {
        return false;
    }
    let mut k: usize = 0;
    while k < name.len()
        invariant
            hi - lo == name@.len(),
            lo <= hi <= s@.len(),
            0 <= k <= name@.len(),
            forall|m: int| 0 <= m < k ==> s@[lo + m] == name@[m],
        decreases name@.len() - k,
    {
        if s[lo + k] != name[k] {
            assert(s@.subrange(lo as int, hi as int)[k as int] != name@[k as int]);
            return false;
        }
        k = k + 1;
    }
    assert(s@.subrange(lo as int, hi as int) =~= name@);
    true
}

} // verus!
