//! Frame alignment on a lossy byte stream: skip up to and including the
//! next newline, then take exactly one frame's worth of bytes.
use vstd::prelude::*;

verus! {

/// The line delimiter that precedes every frame.
pub const NEWLINE: u8 = 0x0a;

/// The abstract state of the reader: whether the delimiter has been seen,
/// and the frame bytes gathered since.
pub struct SyncState {
    pub synced: bool,
    pub got: Seq<u8>,
}

/// One byte through the reader: the next state and, when a frame is
/// complete, that frame. A completed frame sends the reader back to
/// looking for a delimiter.
pub open spec fn sync_step(st: SyncState, len: nat, b: u8) -> (SyncState, Option<Seq<u8>>) {
    if !st.synced {
        (SyncState { synced: b == NEWLINE, got: Seq::empty() }, None)
    } else if st.got.len() + 1 == len {
        (SyncState { synced: false, got: Seq::empty() }, Some(st.got.push(b)))
    } else {
        (SyncState { synced: true, got: st.got.push(b) }, None)
    }
}

/// Bytes through the reader until the first frame completes: the state
/// reached and that frame, or `None` when the bytes run out first.
pub open spec fn sync_run(st: SyncState, len: nat, bytes: Seq<u8>) -> (SyncState, Option<Seq<u8>>)
    decreases bytes.len(),
{
    if bytes.len() == 0 {
        (st, None)
    } else {
        let (next, out) = sync_step(st, len, bytes[0]);
        if out is Some {
            (next, out)
        } else {
            sync_run(next, len, bytes.drop_first())
        }
    }
}

/// The state of a reader that has seen nothing yet.
pub open spec fn unsynced() -> SyncState {
    SyncState { synced: false, got: Seq::empty() }
}

proof fn lemma_skip_line_noise(len: nat, noise: Seq<u8>, tail: Seq<u8>)
    requires
        len > 0,
        !noise.contains(NEWLINE),
    ensures
        sync_run(unsynced(), len, noise + tail) == sync_run(unsynced(), len, tail),
    decreases noise.len(),
{
    if noise.len() > 0 {
        let s = noise + tail;
        assert(s[0] == noise[0]);
        assert(noise[0] != NEWLINE) by {
            if noise[0] == NEWLINE {
                assert(noise.contains(noise[0]));
            }
        }
        assert(s.drop_first() =~= noise.drop_first() + tail);
        assert(!noise.drop_first().contains(NEWLINE)) by {
            if noise.drop_first().contains(NEWLINE) {
                let k = choose|k: int| 0 <= k < noise.drop_first().len() && #[trigger] noise.drop_first()[k] == NEWLINE;
                assert(noise[k + 1] == NEWLINE);
            }
        }
        assert(sync_step(unsynced(), len, s[0]).0.got =~= unsynced().got);
        lemma_skip_line_noise(len, noise.drop_first(), tail);
    }
}

proof fn lemma_gather_frame(len: nat, got: Seq<u8>, frame: Seq<u8>, tail: Seq<u8>)
    requires
        got.len() + frame.len() == len,
        frame.len() > 0,
    ensures
        sync_run(SyncState { synced: true, got }, len, frame + tail) == (
        unsynced(),
        Some(got + frame),
        ),
    decreases frame.len(),
{
    let s = frame + tail;
    assert(s[0] == frame[0]);
    if frame.len() == 1 {
        assert(got.push(frame[0]) =~= got + frame);
        assert(sync_step(SyncState { synced: true, got }, len, s[0]).0.got =~= unsynced().got);
    } else {
        assert(s.drop_first() =~= frame.drop_first() + tail);
        assert(got.push(frame[0]) + frame.drop_first() =~= got + frame);
        lemma_gather_frame(len, got.push(frame[0]), frame.drop_first(), tail);
    }
}

/// Resynchronisation: from a fresh reader, a line of noise that holds no
/// delimiter, then a delimiter, a well-formed frame and anything after it,
/// yields exactly that frame.
pub proof fn lemma_resync(len: nat, noise: Seq<u8>, frame: Seq<u8>, tail: Seq<u8>)
    requires
        len > 0,
        !noise.contains(NEWLINE),
        frame.len() == len,
    ensures
        sync_run(unsynced(), len, noise + seq![NEWLINE] + frame + tail).1 == Some(frame),
{
    let after = seq![NEWLINE] + frame + tail;
    assert(noise + seq![NEWLINE] + frame + tail =~= noise + after);
    lemma_skip_line_noise(len, noise, after);
    assert(after[0] == NEWLINE);
    assert(after.drop_first() =~= frame + tail);
    assert(Seq::<u8>::empty() + frame =~= frame);
    lemma_gather_frame(len, Seq::empty(), frame, tail);
}

/// Reads frames of a fixed length out of a byte stream, resynchronising on
/// the delimiter before each frame.
pub struct FrameSync {
    len: usize,
    synced: bool,
    got: Vec<u8>,
}

impl FrameSync {
    pub closed spec fn spec_len(&self) -> nat {
        self.len as nat
    }

    pub closed spec fn state(&self) -> SyncState {
        SyncState { synced: self.synced, got: self.got@ }
    }

    pub open spec fn wf(&self) -> bool {
        &&& self.spec_len() > 0
        &&& self.state().got.len() < self.spec_len()
        &&& !self.state().synced ==> self.state().got.len() == 0
    }

    /// A reader of frames of `len` bytes, waiting for a delimiter.
    pub fn new(len: usize) -> (r: FrameSync)
        requires
            len > 0,
        ensures
            r.wf(),
            r.spec_len() == len,
            r.state() == unsynced(),
    {
        FrameSync { len, synced: false, got: Vec::new() }
    }

    /// The length of the frames read.
    pub fn frame_len(&self) -> (r: usize)
        ensures
            r == self.spec_len(),
    {
        self.len
    }

    /// Passes `bytes` through the reader until a frame completes, and
    /// returns that frame; the bytes after it are dropped. `None` when the
    /// bytes run out first: the reader keeps its progress for the next call.
    pub fn feed(&mut self, bytes: &[u8]) -> (r: Option<Vec<u8>>)
        requires
            old(self).wf(),
        ensures
            final(self).wf(),
            final(self).spec_len() == old(self).spec_len(),
            final(self).state() == sync_run(old(self).state(), old(self).spec_len(), bytes@).0,
            r matches Some(f) ==> sync_run(old(self).state(), old(self).spec_len(), bytes@).1
                == Some(f@),
            r is None ==> sync_run(old(self).state(), old(self).spec_len(), bytes@).1 is None,
    {
        let ghost start = self.state();
        let ghost len = self.spec_len();
        let n = bytes.len();
        let mut i: usize = 0;
        assert(bytes@.subrange(0, n as int) =~= bytes@);
        while i < n
            invariant
                self.wf(),
                self.spec_len() == len,
                len == old(self).spec_len(),
                start == old(self).state(),
                n == bytes@.len(),
                i <= n,
                sync_run(self.state(), len, bytes@.subrange(i as int, n as int)) == sync_run(
                    start,
                    len,
                    bytes@,
                ),
            decreases n - i,
        {
            let b = bytes[i];
            assert(bytes@.subrange(i as int, n as int).drop_first() =~= bytes@.subrange(
                i as int + 1,
                n as int,
            ));
            assert(bytes@.subrange(i as int, n as int)[0] == b);
            let ghost pre = self.state();
            if !self.synced {
                self.synced = b == NEWLINE;
            } else {
                self.got.push(b);
                if self.got.len() == self.len {
                    let mut frame: Vec<u8> = Vec::new();
                    std::mem::swap(&mut frame, &mut self.got);
                    self.synced = false;
                    return Some(frame);
                }
            }
            assert(self.state().got =~= sync_step(pre, len, b).0.got);
            assert(self.state() == sync_step(pre, len, b).0);
            i = i + 1;
        }
        None
    }
}

} // verus!
