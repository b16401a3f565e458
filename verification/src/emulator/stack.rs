//! The register file: sixteen 8-bit general-purpose registers V0..VF and the
//! 16-bit index register I.

use vstd::prelude::*;

verus! {

/// V15 doubles as the carry/borrow/collision flag.
pub struct Stack {
    pub i: u16,
    pub v: Vec<u8>,
}

impl Stack {
    /// Sixteen registers, and the index register stays within the 12-bit
    /// addressable range.
    pub open spec fn wf(self) -> bool {
        &&& self.v.len() == 16
        &&& self.i <= 0xFFF
    }
}

/// All sixteen registers zeroed, index register zeroed.
pub fn create_stack() -> (r: Stack)
    ensures
        r.wf(),
        r.i == 0,
        r.v@ == Seq::new(16, |k: int| 0u8),
{
    let v: Vec<u8> = vec![0u8; 16];
    let r = Stack { i: 0, v };
    proof {
        assert(r.v@ =~= Seq::new(16, |k: int| 0u8));
    }
    r
}

} // verus!
