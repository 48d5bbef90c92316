use vstd::prelude::*;

verus! {

/// Maximum length of a MAC frame body.
pub const MAX_MTU: usize = 127;

/// Size in bytes of one frame slot on the wire: three length bytes and the body.
pub const FRAME_WIRE_SIZE: usize = 130;

/// One received radio frame, as laid out in a ring-buffer slot.
#[derive(Clone, Copy, Debug)]
pub struct Frame {
    pub header_len: u8,
    pub payload_len: u8,
    pub mic_len: u8,
    pub body: [u8; MAX_MTU],
}

impl Frame {
    /// The empty sentinel frame: all lengths zero and a zeroed body.
    pub open spec fn is_empty_sentinel(&self) -> bool {
        &&& self.header_len == 0
        &&& self.payload_len == 0
        &&& self.mic_len == 0
        &&& forall|i: int| 0 <= i < MAX_MTU ==> #[trigger] self.body@[i] == 0u8
    }

    /// The bytes of the frame's slot on the wire: the three lengths, then the body.
    pub open spec fn wire(&self) -> Seq<u8> {
        seq![self.header_len, self.payload_len, self.mic_len] + self.body@
    }

    /// Returns the empty sentinel frame, stored in every slot of a new ring buffer.
    pub fn empty() -> (r: Frame)
        ensures
            r.is_empty_sentinel(),
    {
        Frame { header_len: 0, payload_len: 0, mic_len: 0, body: [0u8; MAX_MTU] }
    }
}

} // verus!
