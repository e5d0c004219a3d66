//! Recognition of the MUS music format.

use vstd::prelude::*;

verus! {

/// The four bytes that open every MUS lump: `M`, `U`, `S`, then 0x1A.
pub open spec fn mus_magic() -> Seq<u8> {
    seq![0x4Du8, 0x55u8, 0x53u8, 0x1Au8]
}

/// Checks for the 4-byte magic number at the top of the standard header.
pub fn is_mus(bytes: &[u8]) -> (found: bool)
    ensures
        found <==> (bytes@.len() >= 4 && bytes@.subrange(0, 4) == mus_magic()),
{
    if bytes.len() < 4 {
        return false;
    }
    let found = bytes[0] == 0x4D && bytes[1] == 0x55 && bytes[2] == 0x53 && bytes[3] == 0x1A;
    proof {
        let head = bytes@.subrange(0, 4);
        if found {
            assert(head =~= mus_magic());
        } else {
            assert(head[0] == bytes@[0] && head[1] == bytes@[1] && head[2] == bytes@[2] && head[3]
                == bytes@[3]);
        }
    }
    found
}

} // verus!
