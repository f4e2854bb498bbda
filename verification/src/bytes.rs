//! Byte strings and the integers they encode.

use vstd::prelude::*;

verus! {

/// The integer that `bytes` encodes, least significant byte first.
pub open spec fn le_value(bytes: Seq<u8>) -> nat
    decreases bytes.len(),
{
    if bytes.len() == 0 {
        0
    } else {
        bytes[0] as nat + 256 * le_value(bytes.drop_first())
    }
}

/// The first 32 bytes of `data`.
pub fn read32(data: &[u8]) -> (buf: [u8; 32])
    requires
        data@.len() >= 32,
    ensures
        buf@ == data@.subrange(0, 32),
{
    let mut buf = [0u8; 32];
    let mut i: usize = 0;
    while i < 32
        invariant
            i <= 32,
            data@.len() >= 32,
            forall|j: int| 0 <= j < i ==> buf@[j] == data@[j],
        decreases 32 - i,
    {
        buf[i] = data[i];
        i += 1;
    }
    assert(buf@ =~= data@.subrange(0, 32));
    buf
}

} // verus!
