//! Receiving a packet whole, whatever its size.

use vstd::prelude::*;

verus! {

/// The size of the next buffer for a packet of `seen` bytes that did not fit into `len` bytes.
pub open spec fn next_size(seen: usize, len: usize) -> int {
    if seen > len {
        seen + 100
    } else {
        len + 100
    }
}

/// The size that a buffer of `len` bytes needs after a look at a packet of `seen` bytes: none where the packet
/// fits, else a hundred more than the packet and than before.
pub fn grown_buffer(seen: usize, len: usize, truncated: bool) -> (r: Option<usize>)
    requires
        seen + 100 <= usize::MAX,
        len + 100 <= usize::MAX,
    ensures
        r == if !truncated {
            None::<usize>
        } else {
            Some(next_size(seen, len) as usize)
        },
{
    if !truncated {
        None
    } else if seen > len {
        Some(seen + 100)
    } else {
        Some(len + 100)
    }
}

/// What came of receiving a packet that was looked at before.
#[derive(Debug, Clone, Copy, PartialEq, Eq, Structural)]
pub enum Receipt {
    /// So many bytes came; they may not be all.
    Got { len: usize, truncated: bool },
    /// A signal came between.
    Interrupted,
    /// The packet is already gone.
    Gone,
    /// Nothing can be received.
    Failed,
}

/// What to do after it.
#[derive(Debug, Clone, Copy, PartialEq, Eq, Structural)]
pub enum Received {
    /// Try again.
    Again,
    /// The packet has so many bytes.
    Whole(usize),
    /// The packet is not whole.
    Cut,
    /// Give up.
    Error,
}

/// Decides what to do after a packet of `seen` bytes was received. One that is already gone was taken when it
/// was looked at.
pub fn after_receive(seen: usize, receipt: Receipt) -> (r: Received)
    ensures
        r == match receipt {
            Receipt::Got { len, truncated } => if truncated {
                Received::Cut
            } else {
                Received::Whole(len)
            },
            Receipt::Interrupted => Received::Again,
            Receipt::Gone => Received::Whole(seen),
            Receipt::Failed => Received::Error,
        },
{
    match receipt {
        Receipt::Got { len, truncated } => {
            if truncated {
                Received::Cut
            } else {
                Received::Whole(len)
            }
        },
        Receipt::Interrupted => Received::Again,
        Receipt::Gone => Received::Whole(seen),
        Receipt::Failed => Received::Error,
    }
}

/// A buffer that was too small for a packet is large enough for it the next time.
pub proof fn law_grown_buffer_holds_the_packet(seen: usize, len: usize)
    ensures
        next_size(seen, len) >= seen,
        next_size(seen, len) > len,
{
}

} // verus!
