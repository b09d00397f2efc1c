//! Path hashing for cache keys and cache file names.
//!
//! A 64-bit non-cryptographic hash over the characters of a path, in the
//! Fowler-Noll-Vo (FNV-1a) style: each character's code point is folded in
//! with xor and a wrapping multiply by the FNV prime. The hash is a pure
//! function of the path text, so it is stable across processes and machines.

use vstd::prelude::*;

verus! {

use vstd::string::StrSliceExecFns;

/// FNV-1a 64-bit offset basis.
pub const FNV_OFFSET_BASIS: u64 = 0xcbf29ce484222325;

/// FNV-1a 64-bit prime.
pub const FNV_PRIME: u64 = 0x100000001b3;

/// The hash of a path, defined character by character from the front.
pub open spec fn path_hash_spec(s: Seq<char>) -> u64
    decreases s.len(),
{
    if s.len() == 0 {
        FNV_OFFSET_BASIS
    } else {
        (path_hash_spec(s.drop_last()) ^ ((s.last() as u32) as u64)).wrapping_mul(FNV_PRIME)
    }
}

/// Hash of a path for use as a cache key.
pub fn path_hash(path: &str) -> (r: u64)
    ensures
        r == path_hash_spec(path@),
{
    let n = path.unicode_len();
    let mut h: u64 = FNV_OFFSET_BASIS;
    let mut i: usize = 0;
    proof {
        assert(path@.take(0) =~= Seq::<char>::empty());
    }
    while i < n
        invariant
            i <= n,
            n == path@.len(),
            h == path_hash_spec(path@.take(i as int)),
        decreases n - i,
    {
        let c = path.get_char(i);
        proof {
            let cur = path@.take(i + 1);
            assert(cur.drop_last() =~= path@.take(i as int));
            assert(cur.last() == path@[i as int]);
        }
        h = (h ^ ((c as u32) as u64)).wrapping_mul(FNV_PRIME);
        i += 1;
    }
    proof {
        assert(path@.take(n as int) =~= path@);
    }
    h
}

/// Hash of a root path, used to name the cache file for that root.
pub fn calculate_path_hash(path: &String) -> (r: u64)
    ensures
        r == path_hash_spec(path@),
{
    path_hash(path.as_str())
}

} // verus!
