//! Transport-level frame envelope as seen by the daemon's buffering logic.
use vstd::prelude::*;

verus! {

/// Kind of a transport frame.
#[derive(Debug, Clone, Copy, PartialEq, Eq, Structural)]
pub enum FrameType {
    Data,
    Control,
    Handshake,
    RouteUpdate,
    Heartbeat,
}

/// An (optionally encrypted) frame on a peer link.
#[derive(Debug)]
pub struct TransportFrame {
    pub frame_type: FrameType,
    pub nonce: [u8; 12],
    pub payload: Vec<u8>,
    pub tag: [u8; 16],
}

impl TransportFrame {
    /// A plaintext frame of the given type (zero nonce and tag).
    pub fn plain(frame_type: FrameType, payload: Vec<u8>) -> (f: TransportFrame)
        ensures
            f.frame_type == frame_type,
            f.payload@ == payload@,
            f.nonce@ == Seq::new(12, |i: int| 0u8),
            f.tag@ == Seq::new(16, |i: int| 0u8),
    {
        let f = TransportFrame { frame_type, nonce: [0u8; 12], payload, tag: [0u8; 16] };
        assert(f.nonce@ =~= Seq::new(12, |i: int| 0u8));
        assert(f.tag@ =~= Seq::new(16, |i: int| 0u8));
        f
    }
}

} // verus!
