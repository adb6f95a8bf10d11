//! Buffer transformations on the first `len` bytes of byte buffers: copy,
//! comparison and exclusive or.
use vstd::prelude::*;

verus! {

/// `dst` after its first `len` bytes are replaced by those of `src`.
pub open spec fn copied_prefix(src: Seq<u8>, dst: Seq<u8>, len: nat) -> Seq<u8> {
    src.subrange(0, len as int) + dst.subrange(len as int, dst.len() as int)
}

/// Copy the first `len` bytes of `src` over the first `len` bytes of `dst`;
/// the rest of `dst` is left as it was.
pub fn densified_copy(src: &[u8], dst: &mut Vec<u8>, len: usize)
    requires
        len <= src@.len(),
        len <= old(dst)@.len(),
    ensures
        final(dst)@ == copied_prefix(src@, old(dst)@, len as nat),
{
    let mut i: usize = 0;
    while i < len
        invariant
            i <= len,
            len <= src@.len(),
            dst@.len() == old(dst)@.len(),
            len <= old(dst)@.len(),
            forall|k: int| 0 <= k < i ==> #[trigger] dst@[k] == src@[k],
            forall|k: int| i <= k < dst@.len() ==> #[trigger] dst@[k] == old(dst)@[k],
        decreases len - i,
    {
        dst.set(i, src[i]);
        i = i + 1;
    }
    assert(dst@ =~= copied_prefix(src@, old(dst)@, len as nat));
}

/// `i` is the first position below `len` where `a` and `b` differ.
pub open spec fn is_first_difference(a: Seq<u8>, b: Seq<u8>, len: nat, i: int) -> bool {
    &&& 0 <= i < len
    &&& a[i] != b[i]
    &&& forall|j: int| 0 <= j < i ==> a[j] == b[j]
}

/// Comparison of the first `len` bytes: 0 when they agree, else the
/// difference of the first pair of bytes that differ.
pub open spec fn compare_prefix(a: Seq<u8>, b: Seq<u8>, len: nat) -> int {
    if exists|i: int| 0 <= i < len && a[i] != b[i] {
        let i = choose|i: int| is_first_difference(a, b, len, i);
        a[i] - b[i]
    } else {
        0
    }
}

/// Compare the first `len` bytes of `a` and `b`: 0 if equal, else the
/// difference `a[i] - b[i]` at the first index `i` where they differ.
pub fn densified_compare(a: &[u8], b: &[u8], len: usize) -> (r: i32)
    requires
        len <= a@.len(),
        len <= b@.len(),
    ensures
        r == compare_prefix(a@, b@, len as nat),
        r == 0 <==> a@.subrange(0, len as int) == b@.subrange(0, len as int),
{
    let mut i: usize = 0;
    while i < len
        invariant
            i <= len,
            len <= a@.len(),
            len <= b@.len(),
            forall|j: int| 0 <= j < i ==> a@[j] == b@[j],
        decreases len - i,
    {
        let ba = a[i];
        let bb = b[i];
        if ba != bb {
            proof {
                assert(is_first_difference(a@, b@, len as nat, i as int));
                let k = choose|k: int| is_first_difference(a@, b@, len as nat, k);
                if k < i {
                    assert(a@[k] == b@[k]);
                } else if k > i {
                    assert(a@[i as int] == b@[i as int]);
                }
                assert(a@.subrange(0, len as int)[i as int] != b@.subrange(0, len as int)[i as int]);
            }
            return ba as i32 - bb as i32;
        }
        i = i + 1;
    }
    assert(a@.subrange(0, len as int) =~= b@.subrange(0, len as int));
    0
}

/// `dst` after its first `len` bytes are replaced by `a[i] ^ b[i]`.
pub open spec fn xored_prefix(a: Seq<u8>, b: Seq<u8>, dst: Seq<u8>, len: nat) -> Seq<u8> {
    Seq::new(len, |i: int| a[i] ^ b[i]) + dst.subrange(len as int, dst.len() as int)
}

/// Write `a[i] ^ b[i]` into `dst[i]` for every `i` below `len`; the rest of
/// `dst` is left as it was.
pub fn densified_xor(a: &[u8], b: &[u8], dst: &mut Vec<u8>, len: usize)
    requires
        len <= a@.len(),
        len <= b@.len(),
        len <= old(dst)@.len(),
    ensures
        final(dst)@ == xored_prefix(a@, b@, old(dst)@, len as nat),
{
    let mut i: usize = 0;
    while i < len
        invariant
            i <= len,
            len <= a@.len(),
            len <= b@.len(),
            dst@.len() == old(dst)@.len(),
            len <= old(dst)@.len(),
            forall|k: int| 0 <= k < i ==> #[trigger] dst@[k] == a@[k] ^ b@[k],
            forall|k: int| i <= k < dst@.len() ==> #[trigger] dst@[k] == old(dst)@[k],
        decreases len - i,
    {
        dst.set(i, a[i] ^ b[i]);
        i = i + 1;
    }
    assert(dst@ =~= xored_prefix(a@, b@, old(dst)@, len as nat));
}

} // verus!
