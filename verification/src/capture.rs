//! Decisions of the live capture loop: how many packets to take, what to do
//! when none is ready or the source fails, and which bytes of a captured
//! frame the decoders see.
use vstd::prelude::*;

verus! {

/// What the packet source reported on one poll.
pub enum CaptureEvent {
    /// A packet of this many captured bytes arrived.
    Packet(usize),
    /// No packet was ready (timeout or nothing queued).
    Idle,
    /// The source failed.
    Failed,
}

/// What the loop does next.
#[derive(PartialEq, Eq, Structural)]
pub enum CaptureAction {
    /// Poll again at once.
    Next,
    /// Wait a little, then poll again.
    Wait,
    /// Leave the loop.
    Stop,
}

/// Packets and bytes taken so far, and the packet limit.
pub struct CaptureCount {
    pub captured: u64,
    pub bytes: usize,
    pub limit: u64,
}

impl CaptureCount {
    /// Nothing taken yet; the limit is the requested count, or no limit
    /// (`u64::MAX`) when none was given.
    pub fn new(count: Option<u64>) -> (c: Self)
        ensures
            c.captured == 0,
            c.bytes == 0,
            c.limit == (match count {
                Some(n) => n,
                None => u64::MAX,
            }),
    {
        let limit = match count {
            Some(n) => n,
            None => u64::MAX,
        };
        CaptureCount { captured: 0, bytes: 0, limit }
    }

    /// Whether a packet of `len` bytes can still be counted.
    pub open spec fn has_room(&self, len: usize) -> bool {
        self.captured < u64::MAX && self.bytes + len <= usize::MAX
    }

    /// Records one poll of the source and says what the loop does next: a
    /// packet is counted, and the loop stops once the limit is reached; when
    /// no packet is ready the loop waits; when the source fails it stops.
    pub fn step(&mut self, event: CaptureEvent) -> (a: CaptureAction)
        requires
            event matches CaptureEvent::Packet(len) ==> old(self).has_room(len),
        ensures
            match event {
                CaptureEvent::Packet(len) => {
                    &&& final(self).captured == old(self).captured + 1
                    &&& final(self).bytes == old(self).bytes + len
                    &&& final(self).limit == old(self).limit
                    &&& (a == CaptureAction::Stop <==> final(self).captured >= final(self).limit)
                    &&& (a == CaptureAction::Stop || a == CaptureAction::Next)
                },
                CaptureEvent::Idle => *final(self) == *old(self) && a == CaptureAction::Wait,
                CaptureEvent::Failed => *final(self) == *old(self) && a == CaptureAction::Stop,
            },
    {
        match event {
            CaptureEvent::Packet(len) => {
                self.captured = self.captured + 1;
                self.bytes = self.bytes + len;
                if self.captured >= self.limit {
                    CaptureAction::Stop
                } else {
                    CaptureAction::Next
                }
            },
            CaptureEvent::Idle => CaptureAction::Wait,
            CaptureEvent::Failed => CaptureAction::Stop,
        }
    }
}

/// The bytes the decoders see: the frame after `strip` bytes of link-layer
/// header, or the whole capture when it is not longer than that header (or
/// there is none to strip).
pub fn frame_after_link_header(data: &[u8], strip: usize) -> (r: &[u8])
    ensures
        r@ == (if strip > 0 && data@.len() > strip {
            data@.subrange(strip as int, data@.len() as int)
        } else {
            data@
        }),
{
    if strip > 0 && data.len() > strip {
        crate::protocol::slice_from(data, strip)
    } else {
        data
    }
}

} // verus!
