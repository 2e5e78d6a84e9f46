//! Frames handed from capture to the renderer, and the capture side's
//! buffer bookkeeping: identical consecutive frames are not re-sent, and
//! buffers the renderer hands back are kept in a small bounded pool.

use vstd::prelude::*;

verus! {

/// A captured frame on its way to the renderer.
pub enum CaptureMsg {
    Frame { rgba: Vec<u8>, width: u32, height: u32 },
}

/// How handing a frame to the renderer went.
pub enum SendOutcome {
    /// The renderer has the frame.
    Sent,
    /// The renderer's queue was full; the frame was dropped and its buffer
    /// comes back.
    Full(Vec<u8>),
    /// The renderer is gone.
    Disconnected,
}

/// Most buffers kept for reuse.
pub const MAX_POOL: usize = 4;

/// The last frame that reached the renderer, and spare buffers.
pub struct FramePool {
    pub pool: Vec<Vec<u8>>,
    pub last_sent: Vec<u8>,
}

impl FramePool {
    /// The pool never holds more than [`MAX_POOL`] buffers.
    pub open spec fn wf(&self) -> bool {
        self.pool.len() <= MAX_POOL
    }

    pub fn new() -> (p: FramePool)
        ensures
            p.wf(),
            p.pool@.len() == 0,
            p.last_sent@ == Seq::<u8>::empty(),
    {
        FramePool { pool: Vec::new(), last_sent: Vec::new() }
    }

    /// Whether `frame` is byte-for-byte the frame last sent (so sending it
    /// again can be skipped).
    pub fn is_repeat(&self, frame: &[u8]) -> (b: bool)
        ensures
            b == (frame@ == self.last_sent@),
    {
        if frame.len() != self.last_sent.len() {
            return false;
        }
        let mut i: usize = 0;
        while i < frame.len()
            invariant
                frame.len() == self.last_sent.len(),
                i <= frame.len(),
                forall|j: int| 0 <= j < i ==> #[trigger] frame@[j] == self.last_sent@[j],
            decreases frame.len() - i,
        {
            if frame[i] != self.last_sent[i] {
                assert(frame@[i as int] != self.last_sent@[i as int]);
                return false;
            }
            i = i + 1;
        }
        assert(frame@ =~= self.last_sent@);
        true
    }

    /// Takes back a buffer the renderer is done with, keeping it only while
    /// the pool has room.
    pub fn reclaim(&mut self, buf: Vec<u8>)
        requires
            old(self).wf(),
        ensures
            final(self).wf(),
            final(self).last_sent@ == old(self).last_sent@,
            old(self).pool.len() < MAX_POOL ==> final(self).pool@ == old(self).pool@.push(buf),
            old(self).pool.len() >= MAX_POOL ==> final(self).pool@ == old(self).pool@,
    {
        if self.pool.len() < MAX_POOL {
            self.pool.push(buf);
        }
    }

    /// A buffer holding a copy of `frame`, reusing a pooled buffer when
    /// there is one.
    pub fn outgoing(&mut self, frame: &[u8]) -> (out: Vec<u8>)
        requires
            old(self).wf(),
        ensures
            final(self).wf(),
            out@ == frame@,
            final(self).last_sent@ == old(self).last_sent@,
            final(self).pool@ == if old(self).pool.len() > 0 {
                old(self).pool@.drop_last()
            } else {
                old(self).pool@
            },
    {
        let mut out = match self.pool.pop() {
            Some(b) => b,
            None => Vec::new(),
        };
        out.clear();
        out.extend_from_slice(frame);
        out
    }

    /// Records that `frame` reached the renderer. A frame that was dropped
    /// must not be recorded, or the next identical frame would be skipped
    /// and leave the display stale.
    pub fn mark_sent(&mut self, frame: &[u8])
        requires
            old(self).wf(),
        ensures
            final(self).wf(),
            final(self).last_sent@ == frame@,
            final(self).pool@ == old(self).pool@,
    {
        self.last_sent.clear();
        self.last_sent.extend_from_slice(frame);
    }

    /// Records how handing `frame` over went, and says whether to keep
    /// capturing. Only a frame the renderer got counts as sent, so a dropped
    /// frame is offered again on the next identical capture; a dropped
    /// frame's buffer goes back to the pool while it has room. Capturing
    /// stops once the renderer is gone.
    pub fn after_send(&mut self, frame: &[u8], outcome: SendOutcome) -> (keep_going: bool)
        requires
            old(self).wf(),
        ensures
            final(self).wf(),
            keep_going == !(outcome is Disconnected),
            match outcome {
                SendOutcome::Sent => final(self).last_sent@ == frame@ && final(self).pool@ == old(self).pool@,
                SendOutcome::Full(buf) => final(self).last_sent@ == old(self).last_sent@ && final(self).pool@ == (
                if old(self).pool.len() < MAX_POOL {
                    old(self).pool@.push(buf)
                } else {
                    old(self).pool@
                }),
                SendOutcome::Disconnected => final(self).last_sent@ == old(self).last_sent@ && final(self).pool@
                    == old(self).pool@,
            },
    {
        match outcome {
            SendOutcome::Sent => {
                self.mark_sent(frame);
                true
            },
            SendOutcome::Full(buf) => {
                self.reclaim(buf);
                true
            },
            SendOutcome::Disconnected => false,
        }
    }
}

} // verus!
