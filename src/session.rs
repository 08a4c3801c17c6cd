use crate::codec::{
    encode_tagged, le_value, tagged_frame, FrameError, Tag, LENGTH_WIDTH,
};
use vstd::prelude::*;

verus! {

/// One operation of a session on its streams, counted in whole frames.
#[derive(Clone, Copy, Debug, PartialEq, Eq, Structural)]
pub enum StreamOp {
    /// One frame read from the inbound stream.
    Read,
    /// One frame written to the outbound stream.
    Write,
}

/// Where a session stands.
#[derive(Clone, Copy, Debug, PartialEq, Eq, Structural)]
pub enum Phase {
    /// Waiting for the length field of an inbound frame: the initial request,
    /// or the result of the call just written.
    AwaitLength,
    /// Waiting for the given number of payload bytes of an inbound frame.
    AwaitPayload(usize),
    /// Guest logic runs: it may call the host or complete the session.
    Running,
    /// The completion frame was written; nothing more is read or written.
    Completed,
    /// A fatal error ended the session.
    Aborted(FrameError),
}

/// The frame operations `n` nested calls make: a write and then a read each.
pub open spec fn call_ops(n: nat) -> Seq<StreamOp>
    decreases n,
{
    if n == 0 {
        Seq::empty()
    } else {
        call_ops((n - 1) as nat) + seq![StreamOp::Write, StreamOp::Read]
    }
}

/// The frame operations of a whole session with `n` nested calls: the initial
/// read, the calls, and the completion write.
pub open spec fn session_ops(n: nat) -> Seq<StreamOp> {
    seq![StreamOp::Read] + call_ops(n) + seq![StreamOp::Write]
}

/// Reads and writes take turns, starting with a read.
pub open spec fn alternates(ops: Seq<StreamOp>) -> bool {
    forall|i: int|
        0 <= i < ops.len() ==> #[trigger] ops[i] == if i % 2 == 0 {
            StreamOp::Read
        } else {
            StreamOp::Write
        }
}

/// The guest side of one invocation: it reads the initial request, performs
/// nested calls one at a time, and writes the completion frame. The session
/// decides; the caller moves the bytes and hands back what the inbound stream
/// delivered.
pub struct Session {
    phase: Phase,
    capacity: usize,
    calls: Ghost<nat>,
    ops: Ghost<Seq<StreamOp>>,
}

impl Session {
    pub closed spec fn spec_phase(&self) -> Phase {
        self.phase
    }

    /// The largest payload the session accepts on its inbound stream.
    pub closed spec fn spec_capacity(&self) -> usize {
        self.capacity
    }

    /// The number of nested calls written so far.
    pub closed spec fn calls(&self) -> nat {
        self.calls@
    }

    /// The frames read and written so far, in order.
    pub closed spec fn ops(&self) -> Seq<StreamOp> {
        self.ops@
    }

    /// What holds in every state of a session: reads and writes alternate, and
    /// the phase says how far the current call has come.
    pub open spec fn wf(&self) -> bool {
        &&& alternates(self.ops())
        &&& match self.phase() {
            Phase::AwaitLength => self.ops().len() == 2 * self.calls(),
            Phase::AwaitPayload(len) => self.ops().len() == 2 * self.calls() && len
                <= self.capacity(),
            Phase::Running => self.ops().len() == 2 * self.calls() + 1,
            Phase::Completed => self.ops().len() == 2 * self.calls() + 2,
            Phase::Aborted(_) => self.ops().len() <= 2 * self.calls() + 2,
        }
    }

    /// A session that waits for its initial request, with room for payloads of
    /// at most `capacity` bytes.
    pub fn new(capacity: usize) -> (s: Session)
        ensures
            s.wf(),
            s.phase() == Phase::AwaitLength,
            s.capacity() == capacity,
            s.calls() == 0,
            s.ops() == Seq::<StreamOp>::empty(),
    {
        Session { phase: Phase::AwaitLength, capacity, calls: Ghost(0), ops: Ghost(Seq::empty()) }
    }

    /// Where the session stands.
    #[verifier::when_used_as_spec(spec_phase)]
    pub fn phase(&self) -> (p: Phase)
        ensures
            p == self.phase(),
    {
        self.phase
    }

    /// The largest payload the session accepts on its inbound stream.
    #[verifier::when_used_as_spec(spec_capacity)]
    pub fn capacity(&self) -> (c: usize)
        ensures
            c == self.capacity(),
    {
        self.capacity
    }

    /// Takes the bytes the inbound stream delivered when asked for the length
    /// field of the next frame; fewer than four means the stream ended. Gives
    /// the payload length to read next. A short field, or a length beyond the
    /// capacity, aborts the session.
    pub fn receive_length(&mut self, bytes: &[u8]) -> (r: Result<usize, FrameError>)
        requires
            old(self).wf(),
            old(self).phase() == Phase::AwaitLength,
            bytes@.len() <= LENGTH_WIDTH,
        ensures
            final(self).wf(),
            final(self).capacity() == old(self).capacity(),
            final(self).calls() == old(self).calls(),
            final(self).ops() == old(self).ops(),
            bytes@.len() < 4 ==> r == Err::<usize, FrameError>(FrameError::ShortRead),
            bytes@.len() == 4 && le_value(bytes@) > old(self).capacity() ==> r == Err::<
                usize,
                FrameError,
            >(FrameError::BufferOverflow),
            bytes@.len() == 4 && le_value(bytes@) <= old(self).capacity() ==> r == Ok::<
                usize,
                FrameError,
            >(le_value(bytes@) as usize),
            match r {
                Ok(len) => final(self).phase() == Phase::AwaitPayload(len),
                Err(e) => final(self).phase() == Phase::Aborted(e),
            },
    {
        match crate::codec::decode_length(bytes) {
            Err(e) => {
                self.phase = Phase::Aborted(e);
                Err(e)
            },
            Ok(len) => {
                assert(bytes@.take(4) =~= bytes@);
                if len as usize > self.capacity {
                    self.phase = Phase::Aborted(FrameError::BufferOverflow);
                    Err(FrameError::BufferOverflow)
                } else {
                    self.phase = Phase::AwaitPayload(len as usize);
                    Ok(len as usize)
                }
            },
        }
    }

    /// Takes the bytes the inbound stream delivered when asked for the payload
    /// of the frame whose length was just read; fewer means the stream ended,
    /// which aborts the session. Gives the payload: the initial request or the
    /// result of the call.
    pub fn receive_payload(&mut self, bytes: Vec<u8>) -> (r: Result<Vec<u8>, FrameError>)
        requires
            old(self).wf(),
            old(self).phase() is AwaitPayload,
            bytes@.len() <= old(self).phase()->AwaitPayload_0,
        ensures
            final(self).wf(),
            final(self).capacity() == old(self).capacity(),
            final(self).calls() == old(self).calls(),
            bytes@.len() < old(self).phase()->AwaitPayload_0 ==> {
                &&& r == Err::<Vec<u8>, FrameError>(FrameError::ShortRead)
                &&& final(self).phase() == Phase::Aborted(FrameError::ShortRead)
                &&& final(self).ops() == old(self).ops()
            },
            bytes@.len() == old(self).phase()->AwaitPayload_0 ==> {
                &&& r is Ok
                &&& r->Ok_0@ == bytes@
                &&& final(self).phase() == Phase::Running
                &&& final(self).ops() == old(self).ops().push(StreamOp::Read)
            },
    {
        let len = match self.phase {
            Phase::AwaitPayload(len) => len,
            _ => 0,
        };
        if bytes.len() < len {
            self.phase = Phase::Aborted(FrameError::ShortRead);
            Err(FrameError::ShortRead)
        } else {
            self.phase = Phase::Running;
            self.ops = Ghost(self.ops@.push(StreamOp::Read));
            Ok(bytes)
        }
    }

    /// Starts a nested call: gives the frame to write, which carries `argument`
    /// under `tag`. The session then waits for the call's result.
    pub fn call(&mut self, tag: &Tag, argument: &[u8]) -> (frame: Vec<u8>)
        requires
            old(self).wf(),
            old(self).phase() == Phase::Running,
            argument@.len() <= u32::MAX,
        ensures
            final(self).wf(),
            frame@ == tagged_frame(tag@, argument@),
            final(self).phase() == Phase::AwaitLength,
            final(self).capacity() == old(self).capacity(),
            final(self).calls() == old(self).calls() + 1,
            final(self).ops() == old(self).ops().push(StreamOp::Write),
    {
        let frame = encode_tagged(tag, argument);
        self.phase = Phase::AwaitLength;
        self.calls = Ghost(self.calls@ + 1);
        self.ops = Ghost(self.ops@.push(StreamOp::Write));
        frame
    }

    /// Ends the session: gives the completion frame to write, which carries
    /// `result` under the tag `DONE`. Nothing is read or written after it.
    pub fn complete(&mut self, result: &[u8]) -> (frame: Vec<u8>)
        requires
            old(self).wf(),
            old(self).phase() == Phase::Running,
            result@.len() <= u32::MAX,
        ensures
            final(self).wf(),
            frame@ == tagged_frame(seq![68u8, 79u8, 78u8, 69u8], result@),
            final(self).phase() == Phase::Completed,
            final(self).capacity() == old(self).capacity(),
            final(self).calls() == old(self).calls(),
            final(self).ops() == old(self).ops().push(StreamOp::Write),
    {
        let frame = encode_tagged(&Tag::completion(), result);
        self.phase = Phase::Completed;
        self.ops = Ghost(self.ops@.push(StreamOp::Write));
        frame
    }

    /// Ends the session on a fatal error found outside it, such as a frame the
    /// outbound stream could not take.
    pub fn abort(&mut self, error: FrameError)
        requires
            old(self).wf(),
        ensures
            final(self).wf(),
            final(self).phase() == Phase::Aborted(error),
            final(self).capacity() == old(self).capacity(),
            final(self).calls() == old(self).calls(),
            final(self).ops() == old(self).ops(),
    {
        self.phase = Phase::Aborted(error);
    }
}

/// The operations of `n` calls: a write at every even place, a read at every
/// odd one.
proof fn lemma_call_ops(n: nat)
    ensures
        call_ops(n).len() == 2 * n,
        forall|i: int|
            0 <= i < 2 * n ==> #[trigger] call_ops(n)[i] == if i % 2 == 0 {
                StreamOp::Write
            } else {
                StreamOp::Read
            },
    decreases n,
{
    if n > 0 {
        lemma_call_ops((n - 1) as nat);
    }
}

/// A session that completed with `N` nested calls read and wrote exactly this:
/// the initial request, then for each call its request and its result, then
/// the completion frame. No read follows a read and no write follows a write.
pub proof fn lemma_completed_session_ops(s: Session)
    requires
        s.wf(),
        s.phase() == Phase::Completed,
    ensures
        s.ops() == session_ops(s.calls()),
{
    lemma_call_ops(s.calls());
    let expected = session_ops(s.calls());
    assert forall|i: int| 0 <= i < s.ops().len() implies s.ops()[i] == expected[i] by {
        if 0 < i < s.ops().len() - 1 {
            assert(expected[i] == call_ops(s.calls())[i - 1]);
        }
    }
    assert(s.ops() =~= expected);
}

} // verus!
