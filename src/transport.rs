//! Stream framing for SOME/IP over TCP: a message is complete once its
//! first 8 bytes are visible and `8 + length` bytes have arrived.

use vstd::prelude::*;
use crate::codec::wire::{get_u32, read32, put_bytes, copy_range};

verus! {

/// Bytes needed to read the length field (service, method, length).
pub const SOMEIP_HEADER_PREFIX: usize = 8;

/// The size of the complete message at the front of `s`, if it has fully
/// arrived.
pub open spec fn framed_len(s: Seq<u8>) -> Option<nat> {
    if s.len() < 8 {
        None
    } else if s.len() >= 8 + read32(s, 4) {
        Some((8 + read32(s, 4)) as nat)
    } else {
        None
    }
}

/// The size of the complete SOME/IP message at the front of `buf`, if it
/// has fully arrived.
pub fn someip_message_len(buf: &[u8]) -> (r: Option<usize>)
    ensures
        r matches Some(n) ==> framed_len(buf@) == Some(n as nat),
        r is None ==> framed_len(buf@) is None,
{
    if buf.len() < SOMEIP_HEADER_PREFIX {
        return None;
    }
    let length = get_u32(buf, 4);
    let total: u64 = 8 + length as u64;
    if buf.len() as u64 >= total {
        Some(total as usize)
    } else {
        None
    }
}

/// Bytes received on a stream and not yet handed out as messages.
pub struct FrameBuffer {
    pub data: Vec<u8>,
}

impl FrameBuffer {
    pub fn new() -> (r: FrameBuffer)
        ensures
            r.data@ == Seq::<u8>::empty(),
    {
        FrameBuffer { data: Vec::new() }
    }

    /// Appends received bytes.
    pub fn append(&mut self, bytes: &[u8])
        ensures
            final(self).data@ == old(self).data@ + bytes@,
    {
        put_bytes(&mut self.data, bytes);
    }

    /// The size of the complete message at the front, if any.
    pub fn check(&self) -> (r: Option<usize>)
        ensures
            r matches Some(n) ==> framed_len(self.data@) == Some(n as nat),
            r is None ==> framed_len(self.data@) is None,
    {
        someip_message_len(self.data.as_slice())
    }

    /// Takes the complete message at the front, if any; the bytes after it
    /// stay buffered.
    pub fn next_message(&mut self) -> (r: Option<Vec<u8>>)
        ensures
            match framed_len(old(self).data@) {
                Some(n) => r matches Some(m) && m@ == old(self).data@.subrange(0, n as int)
                    && final(self).data@ == old(self).data@.subrange(n as int, old(self).data@.len() as int),
                None => r is None && final(self).data@ == old(self).data@,
            },
    {
        match self.check() {
            Some(n) => {
                let msg = copy_range(self.data.as_slice(), 0, n);
                let rest = copy_range(self.data.as_slice(), n, self.data.len());
                self.data = rest;
                Some(msg)
            },
            None => None,
        }
    }
}

} // verus!
