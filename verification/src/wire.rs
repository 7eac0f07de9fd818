//! Assembly of outbound wire byte strings.

use vstd::prelude::*;

verus! {

/// Appends every byte of `src` to `dst`, in order.
pub fn append_bytes(dst: &mut Vec<u8>, src: &[u8])
    ensures
        final(dst)@ == old(dst)@ + src@,
{
    let ghost start = dst@;
    proof {
        assert(start + src@.take(0) =~= start);
    }
    let mut i: usize = 0;
    while i < src.len()
        invariant
            0 <= i <= src@.len(),
            dst@ == start + src@.take(i as int),
        decreases src@.len() - i,
    {
        dst.push(src[i]);
        proof {
            assert(start + src@.take(i as int + 1) =~= (start + src@.take(i as int)).push(
                src@[i as int],
            ));
        }
        i = i + 1;
    }
    proof {
        assert(src@.take(src@.len() as int) =~= src@);
    }
}

} // verus!
