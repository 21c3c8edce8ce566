//! Buffering between the HTTP/2 connection and the raw socket.
//!
//! `FrameSender` queues serialized frames and hands them out, in order, to whoever performs the
//! actual socket writes. `FrameReceiver` accumulates the bytes read off the socket and cuts
//! complete HTTP/2 frames off its front.
//!
//! Neither type touches a socket: the loops that alternate between socket operations and buffer
//! decisions are written as step functions (`FrameSender::try_write`, `FrameReceiver::try_read`)
//! that take what the socket reported and say what to do next.
use std::collections::VecDeque;
use vstd::prelude::*;

verus! {

// ---------------------------------------------------------------------------------------------
// Sending side
// ---------------------------------------------------------------------------------------------

/// What a single socket write reported.
#[derive(Clone, Copy, Debug, PartialEq, Eq, Structural)]
pub enum WriteOutcome {
    /// The write accepted this many bytes.
    Written(usize),
    /// The write could not proceed without blocking.
    WouldBlock,
    /// The write failed with an error other than `WouldBlock`.
    Failed,
}

/// Marks a socket error (other than `WouldBlock`) that the caller has to propagate.
#[derive(Clone, Copy, Debug, PartialEq, Eq, Structural)]
pub struct WriteFailure;

/// An event handed to `FrameSender::try_write`.
#[derive(Clone, Copy, Debug, PartialEq, Eq, Structural)]
pub enum WriteEvent {
    /// A new attempt to flush everything that is buffered starts.
    Begin,
    /// The socket was polled for writability.
    Polled { ready: bool },
    /// The bytes of `FrameSender::current_chunk` were written to the socket.
    Wrote(WriteOutcome),
}

/// What `FrameSender::try_write` asks its caller to do next.
#[derive(Clone, Copy, Debug, PartialEq, Eq, Structural)]
pub enum WriteAction {
    /// Poll the socket for writability and report back with `WriteEvent::Polled`.
    PollWrite,
    /// Write `FrameSender::current_chunk` and report back with `WriteEvent::Wrote`.
    Write,
    /// The attempt is over: `all_written` tells whether everything buffered went out without
    /// blocking.
    Finished { all_written: bool },
    /// The attempt is over: the socket error that was reported is to be propagated.
    Failed,
}

/// The abstract state of a `FrameSender`.
pub struct SenderView {
    /// The not yet written remainder of the buffer that is being sent out, if any.
    pub current: Option<Seq<u8>>,
    /// The serialized frames waiting behind it, oldest first.
    pub queued: Seq<Seq<u8>>,
}

/// The bytes of an optional buffer (none for a missing one).
pub open spec fn bytes_of(current: Option<Seq<u8>>) -> Seq<u8> {
    match current {
        Some(c) => c,
        None => Seq::empty(),
    }
}

impl SenderView {
    /// Every byte that still has to go out, in the order in which it goes out.
    pub open spec fn pending(self) -> Seq<u8> {
        bytes_of(self.current) + self.queued.flatten()
    }

    /// The state after a serialized frame is queued.
    pub open spec fn with_frame(self, frame: Seq<u8>) -> SenderView {
        SenderView { current: self.current, queued: self.queued.push(frame) }
    }

    /// Whether there is a buffer in flight or a frame waiting.
    pub open spec fn has_more(self) -> bool {
        self.current is Some || self.queued.len() > 0
    }

    /// The state after `prepare_next`: with no buffer in flight, the oldest queued frame becomes
    /// the buffer in flight.
    pub open spec fn prepared(self) -> SenderView {
        if self.current is None && self.queued.len() > 0 {
            SenderView { current: Some(self.queued[0]), queued: self.queued.drop_first() }
        } else {
            self
        }
    }

    /// The state after the socket accepted `count` bytes of the buffer in flight.
    pub open spec fn consumed(self, count: nat) -> SenderView {
        match self.current {
            Some(c) => if count >= c.len() {
                SenderView { current: None, queued: self.queued }
            } else {
                SenderView { current: Some(c.skip(count as int)), queued: self.queued }
            },
            None => self,
        }
    }

    /// The state and result of `write_next` for the given write outcome: progress when the
    /// socket accepted bytes (or there was nothing left to write), no progress when it accepted
    /// none of the bytes still to write or would have blocked.
    pub open spec fn after_write(self, outcome: WriteOutcome) -> (SenderView, Result<bool, WriteFailure>) {
        if self.current is None {
            (self, Ok(true))
        } else {
            match outcome {
                WriteOutcome::Written(count) => if count == 0 && bytes_of(self.current).len() > 0 {
                    (self, Ok(false))
                } else {
                    (self.consumed(count as nat), Ok(true))
                },
                WriteOutcome::WouldBlock => (self, Ok(false)),
                WriteOutcome::Failed => (self, Err(WriteFailure)),
            }
        }
    }

    /// Prepares the next buffer and says whether there is anything left to poll for.
    pub open spec fn continue_writing(self) -> (SenderView, WriteAction) {
        if self.has_more() {
            (self.prepared(), WriteAction::PollWrite)
        } else {
            (self, WriteAction::Finished { all_written: true })
        }
    }

    /// One step of the flushing loop: the new state and the next action for an event.
    pub open spec fn write_step(self, event: WriteEvent) -> (SenderView, WriteAction) {
        match event {
            WriteEvent::Begin => self.continue_writing(),
            WriteEvent::Polled { ready } => if ready {
                (self, WriteAction::Write)
            } else {
                (self, WriteAction::Finished { all_written: false })
            },
            WriteEvent::Wrote(outcome) => {
                let (next, res) = self.after_write(outcome);
                match res {
                    Err(_) => (next, WriteAction::Failed),
                    Ok(false) => (next, WriteAction::Finished { all_written: false }),
                    Ok(true) => next.continue_writing(),
                }
            },
        }
    }
}

/// The buffer that is currently being written out, and how much of it was already written.
struct OutBuffer {
    bytes: Vec<u8>,
    position: usize,
}

/// Queues serialized frames and hands their bytes out, in order, for writing to the socket.
pub struct FrameSender {
    /// The current buffer being sent out.
    out_buf: Option<OutBuffer>,
    /// Pending serialized frames.
    out_frames: VecDeque<Vec<u8>>,
}

impl View for FrameSender {
    type V = SenderView;

    closed spec fn view(&self) -> SenderView {
        SenderView {
            current: match self.out_buf {
                Some(b) => Some(b.bytes@.skip(b.position as int)),
                None => None,
            },
            queued: self.out_frames@.map_values(|f: Vec<u8>| f@),
        }
    }
}

impl FrameSender {
    /// The written position of the buffer in flight never passes its end.
    pub closed spec fn wf(&self) -> bool {
        match self.out_buf {
            Some(b) => b.position <= b.bytes.len(),
            None => true,
        }
    }

    /// Creates a `FrameSender` with nothing buffered.
    pub fn new() -> (s: FrameSender)
        ensures
            s.wf(),
            s@.current is None,
            s@.queued == Seq::<Seq<u8>>::empty(),
            s@.pending() == Seq::<u8>::empty(),
    {
        let s = FrameSender { out_buf: None, out_frames: VecDeque::new() };
        assert(s@.queued =~= Seq::<Seq<u8>>::empty());
        s
    }

    /// Adds a serialized frame to the pending frame buffer. It does not attempt writing
    /// anything to the underlying socket.
    pub fn append(&mut self, b: Vec<u8>)
        requires
            old(self).wf(),
        ensures
            final(self).wf(),
            final(self)@ == old(self)@.with_frame(b@),
            final(self)@.pending() == old(self)@.pending() + b@,
    {
        let ghost frame = b@;
        self.out_frames.push_back(b);
        proof {
            assert(self@.queued =~= old(self)@.queued.push(frame));
            lemma_with_frame_pending(old(self)@, frame);
        }
    }

    /// Prepares the buffer in flight for an upcoming write. If there is none, the oldest pending
    /// frame becomes the buffer in flight. Returns `true` if there are more bytes to send, which
    /// are now ready, and `false` if there is nothing more to send.
    pub fn prepare_next(&mut self) -> (more: bool)
        requires
            old(self).wf(),
        ensures
            final(self).wf(),
            more == old(self)@.has_more(),
            final(self)@ == old(self)@.prepared(),
            final(self)@.pending() == old(self)@.pending(),
    {
        proof {
            lemma_prepared_pending(self@);
        }
        if self.out_buf.is_none() {
            let ghost before = self.out_frames@;
            match self.out_frames.pop_front() {
                None => false,
                Some(buf) => {
                    let ghost first = buf@;
                    self.out_buf = Some(OutBuffer { bytes: buf, position: 0 });
                    proof {
                        assert(self@.queued =~= old(self)@.queued.drop_first());
                        assert(first.skip(0) =~= first);
                        assert(old(self)@.queued[0] == first);
                    }
                    true
                },
            }
        } else {
            true
        }
    }

    /// The bytes of the buffer in flight that still have to be written (none if there is no
    /// buffer in flight).
    pub fn current_chunk(&self) -> (chunk: &[u8])
        requires
            self.wf(),
        ensures
            chunk@ == bytes_of(self@.current),
    {
        match &self.out_buf {
            Some(b) => {
                let all = b.bytes.as_slice();
                let rest = vstd::slice::slice_subrange(all, b.position, b.bytes.len());
                proof {
                    assert(rest@ =~= b.bytes@.skip(b.position as int));
                }
                rest
            },
            None => {
                let empty: &[u8] = &[];
                proof {
                    assert(empty@ =~= Seq::<u8>::empty());
                }
                empty
            },
        }
    }

    /// Records what the write of `current_chunk` reported.
    ///
    /// Returns `Ok(true)` if the write wrote something (also when there was nothing in flight, or
    /// nothing left of it to write), `Ok(false)` only if nothing was written out (the write would
    /// have blocked or accepted none of the bytes), and `Err` for any other socket error. Once the
    /// whole buffer in flight has been written, it is dropped.
    pub fn write_next(&mut self, outcome: WriteOutcome) -> (res: Result<bool, WriteFailure>)
        requires
            old(self).wf(),
        ensures
            final(self).wf(),
            (final(self)@, res) == old(self)@.after_write(outcome),
            final(self)@.queued == old(self)@.queued,
            match outcome {
                WriteOutcome::Written(count) => old(self)@.current is Some ==> {
                    let c = bytes_of(old(self)@.current);
                    &&& (count == 0 && c.len() > 0) ==> res == Ok::<bool, WriteFailure>(false)
                        && final(self)@ == old(self)@
                    &&& (0 < count < c.len()) ==> res == Ok::<bool, WriteFailure>(true)
                        && final(self)@.current == Some(c.skip(count as int))
                    &&& count >= c.len() ==> res == Ok::<bool, WriteFailure>(true)
                        && final(self)@.current is None
                },
                _ => true,
            },
            final(self)@.pending() == match outcome {
                WriteOutcome::Written(count) => old(self)@.pending().skip(
                    if old(self)@.current is Some && count < bytes_of(old(self)@.current).len() {
                        count as int
                    } else {
                        bytes_of(old(self)@.current).len() as int
                    },
                ),
                _ => old(self)@.pending(),
            },
    {
        proof {
            lemma_consumed_pending(self@, outcome);
        }
        match self.out_buf.take() {
            None => Ok(true),
            Some(b) => {
                match outcome {
                    WriteOutcome::Written(count) => {
                        let remaining = b.bytes.len() - b.position;
                        if count == 0 && remaining > 0 {
                            // Nothing was written out.
                            self.out_buf = Some(b);
                            return Ok(false);
                        }
                        if count < remaining {
                            let ghost old_bytes = b.bytes@;
                            let ghost old_pos = b.position;
                            let position = b.position + count;
                            self.out_buf = Some(OutBuffer { bytes: b.bytes, position });
                            proof {
                                assert(old_bytes.skip(old_pos as int).skip(count as int)
                                    =~= old_bytes.skip(position as int));
                            }
                        }
                        Ok(true)
                    },
                    WriteOutcome::WouldBlock => {
                        self.out_buf = Some(b);
                        Ok(false)
                    },
                    WriteOutcome::Failed => {
                        self.out_buf = Some(b);
                        Err(WriteFailure)
                    },
                }
            },
        }
    }

    /// Attempts to write all remaining buffered data: the buffer in flight, followed by the pending
    /// frames.
    ///
    /// This is one step of that attempt. Start it with `WriteEvent::Begin` and keep feeding back
    /// what the socket reported for each requested action. It ends with
    /// `WriteAction::Finished { all_written: true }` once everything was written without blocking,
    /// with `all_written: false` as soon as the socket would block, and with
    /// `WriteAction::Failed` on any other socket error.
    pub fn try_write(&mut self, event: WriteEvent) -> (action: WriteAction)
        requires
            old(self).wf(),
        ensures
            final(self).wf(),
            (final(self)@, action) == old(self)@.write_step(event),
            action == (WriteAction::Finished { all_written: true }) ==> final(self)@.current is None
                && final(self)@.queued.len() == 0 && final(self)@.pending() =~= Seq::<u8>::empty(),
            action == (WriteAction::Finished { all_written: false }) ==> final(self)@.current is Some
                || event is Polled,
    {
        match event {
            WriteEvent::Begin => self.continue_writing(),
            WriteEvent::Polled { ready } => {
                if ready {
                    WriteAction::Write
                } else {
                    WriteAction::Finished { all_written: false }
                }
            },
            WriteEvent::Wrote(outcome) => {
                match self.write_next(outcome) {
                    Err(_) => WriteAction::Failed,
                    Ok(false) => WriteAction::Finished { all_written: false },
                    Ok(true) => self.continue_writing(),
                }
            },
        }
    }

    /// Prepares the next buffer; asks for a poll when there is something to write.
    fn continue_writing(&mut self) -> (action: WriteAction)
        requires
            old(self).wf(),
        ensures
            final(self).wf(),
            (final(self)@, action) == old(self)@.continue_writing(),
            action == WriteAction::PollWrite ==> final(self)@.current is Some,
            action == (WriteAction::Finished { all_written: true }) ==> final(self)@.current is None
                && final(self)@.queued.len() == 0 && final(self)@.pending() =~= Seq::<u8>::empty(),
    {
        if self.prepare_next() {
            WriteAction::PollWrite
        } else {
            proof {
                assert(self@.queued =~= Seq::<Seq<u8>>::empty());
            }
            WriteAction::Finished { all_written: true }
        }
    }
}

/// Queuing a frame adds its bytes at the end of what is pending.
pub proof fn lemma_with_frame_pending(s: SenderView, frame: Seq<u8>)
    ensures
        s.with_frame(frame).pending() == s.pending() + frame,
{
    s.queued.lemma_flatten_push(frame);
    assert(bytes_of(s.current) + (s.queued.flatten() + frame) =~= bytes_of(s.current)
        + s.queued.flatten() + frame);
}

/// Moving the oldest queued frame in flight does not change what is pending.
pub proof fn lemma_prepared_pending(s: SenderView)
    ensures
        s.prepared().pending() == s.pending(),
{
    if s.current is None && s.queued.len() > 0 {
        assert(s.queued.flatten() == s.queued[0] + s.queued.drop_first().flatten());
        assert(bytes_of(s.current) + s.queued.flatten() =~= s.queued.flatten());
    }
}

/// A write of `count` bytes removes exactly the first `count` pending bytes (or the whole buffer
/// in flight, when `count` covers it).
pub proof fn lemma_consumed_pending(s: SenderView, outcome: WriteOutcome)
    ensures
        s.after_write(outcome).0.pending() == match outcome {
            WriteOutcome::Written(count) => s.pending().skip(
                if s.current is Some && count < bytes_of(s.current).len() {
                    count as int
                } else {
                    bytes_of(s.current).len() as int
                },
            ),
            _ => s.pending(),
        },
{
    match outcome {
        WriteOutcome::Written(count) => {
            let rest = s.queued.flatten();
            match s.current {
                Some(c) => {
                    if count < c.len() {
                        assert(c.skip(count as int) + rest =~= (c + rest).skip(count as int));
                    } else {
                        assert(Seq::<u8>::empty() + rest =~= (c + rest).skip(c.len() as int));
                    }
                },
                None => {
                    assert(s.pending().skip(0) =~= s.pending());
                },
            }
        },
        _ => {},
    }
}

/// Frames leave in the order in which they were queued: queuing `first` and then `second`
/// puts the bytes of `first` before those of `second`, behind everything already pending.
pub proof fn lemma_frames_leave_in_order(s: SenderView, first: Seq<u8>, second: Seq<u8>)
    ensures
        s.with_frame(first).with_frame(second).pending() == s.pending() + first + second,
{
    lemma_with_frame_pending(s, first);
    lemma_with_frame_pending(s.with_frame(first), second);
}

/// A step of the flushing loop never reorders, duplicates or invents bytes: what is pending
/// afterwards is what was pending before, less the bytes that the socket reported written.
pub proof fn lemma_write_step_keeps_order(s: SenderView, event: WriteEvent)
    ensures
        s.write_step(event).0.pending() == s.pending().skip(
            match event {
                WriteEvent::Wrote(WriteOutcome::Written(count)) => if s.current is Some && count
                    < bytes_of(s.current).len() {
                    count as int
                } else {
                    bytes_of(s.current).len() as int
                },
                _ => 0,
            },
        ),
{
    assert(s.pending().skip(0) =~= s.pending());
    lemma_prepared_pending(s);
    match event {
        WriteEvent::Wrote(outcome) => {
            lemma_consumed_pending(s, outcome);
            lemma_prepared_pending(s.after_write(outcome).0);
        },
        _ => {},
    }
}

/// The flushing loop reports that everything was written only when nothing is pending any more.
pub proof fn lemma_all_written_means_flushed(s: SenderView, event: WriteEvent)
    requires
        s.write_step(event).1 == (WriteAction::Finished { all_written: true }),
    ensures
        s.write_step(event).0.pending() =~= Seq::<u8>::empty(),
{
    let next = s.write_step(event).0;
    assert(next.current is None && next.queued.len() == 0);
    assert(next.queued =~= Seq::<Seq<u8>>::empty());
}

/// The flushing loop run against a socket that is always writable and accepts every chunk
/// whole, for at most `fuel` steps: the bytes written, in order, and the action that ended it
/// (`Failed` if the steps ran out).
pub open spec fn flush_to_writable(s: SenderView, event: WriteEvent, fuel: nat) -> (
    Seq<u8>,
    WriteAction,
)
    decreases fuel,
{
    if fuel == 0 {
        (Seq::empty(), WriteAction::Failed)
    } else {
        let (next, action) = s.write_step(event);
        match action {
            WriteAction::PollWrite => flush_to_writable(
                next,
                WriteEvent::Polled { ready: true },
                (fuel - 1) as nat,
            ),
            WriteAction::Write => {
                let chunk = bytes_of(next.current);
                let (rest, last) = flush_to_writable(
                    next,
                    WriteEvent::Wrote(WriteOutcome::Written(chunk.len() as usize)),
                    (fuel - 1) as nat,
                );
                (chunk + rest, last)
            },
            _ => (Seq::empty(), action),
        }
    }
}

/// Every buffer of the sender fits a single write.
pub open spec fn buffers_fit(s: SenderView) -> bool {
    &&& bytes_of(s.current).len() <= usize::MAX
    &&& forall|i: int| 0 <= i < s.queued.len() ==> #[trigger] s.queued[i].len() <= usize::MAX
}

proof fn lemma_flush_from_idle(s: SenderView, fuel: nat)
    requires
        s.current is None,
        buffers_fit(s),
        fuel >= 3 * s.queued.len() + 1,
    ensures
        flush_to_writable(s, WriteEvent::Begin, fuel) == (
            s.pending(),
            WriteAction::Finished { all_written: true },
        ),
    decreases s.queued.len(),
{
    if s.queued.len() == 0 {
        assert(s.pending() =~= Seq::<u8>::empty());
    } else {
        let t = s.prepared();
        let first = s.queued[0];
        let u = SenderView { current: None, queued: s.queued.drop_first() };
        let wrote = WriteEvent::Wrote(WriteOutcome::Written(first.len() as usize));
        assert forall|i: int| 0 <= i < u.queued.len() implies #[trigger] u.queued[i].len()
            <= usize::MAX by {
            assert(u.queued[i] == s.queued[i + 1]);
        }
        assert(s.queued[0].len() <= usize::MAX);
        assert(s.write_step(WriteEvent::Begin) == (t, WriteAction::PollWrite));
        assert(t.write_step(WriteEvent::Polled { ready: true }) == (t, WriteAction::Write));
        assert(bytes_of(t.current) == first);
        assert(t.write_step(wrote) == u.write_step(WriteEvent::Begin));
        lemma_flush_from_idle(u, (fuel - 2) as nat);
        assert(flush_to_writable(t, wrote, (fuel - 2) as nat) == flush_to_writable(
            u,
            WriteEvent::Begin,
            (fuel - 2) as nat,
        ));
        assert(flush_to_writable(t, WriteEvent::Polled { ready: true }, (fuel - 1) as nat) == (
            first + flush_to_writable(t, wrote, (fuel - 2) as nat).0,
            flush_to_writable(t, wrote, (fuel - 2) as nat).1,
        ));
        assert(flush_to_writable(s, WriteEvent::Begin, fuel) == flush_to_writable(
            t,
            WriteEvent::Polled { ready: true },
            (fuel - 1) as nat,
        ));
        assert(s.queued.flatten() == first + s.queued.drop_first().flatten());
        assert(s.pending() =~= first + u.pending());
    }
}

/// Against a socket that is always writable and accepts every chunk whole, one flushing attempt
/// writes out exactly the pending bytes, in order, and reports that everything was written.
pub proof fn lemma_writable_socket_gets_everything(s: SenderView)
    requires
        buffers_fit(s),
    ensures
        flush_to_writable(s, WriteEvent::Begin, 3 * s.queued.len() + 4) == (
            s.pending(),
            WriteAction::Finished { all_written: true },
        ),
{
    let fuel = 3 * s.queued.len() + 4;
    match s.current {
        None => lemma_flush_from_idle(s, fuel),
        Some(c) => {
            let u = SenderView { current: None, queued: s.queued };
            let wrote = WriteEvent::Wrote(WriteOutcome::Written(c.len() as usize));
            assert(s.write_step(WriteEvent::Begin) == (s, WriteAction::PollWrite));
            assert(s.write_step(WriteEvent::Polled { ready: true }) == (s, WriteAction::Write));
            assert(s.write_step(wrote) == u.write_step(WriteEvent::Begin));
            lemma_flush_from_idle(u, (fuel - 2) as nat);
            assert(flush_to_writable(s, wrote, (fuel - 2) as nat) == flush_to_writable(
                u,
                WriteEvent::Begin,
                (fuel - 2) as nat,
            ));
            assert(flush_to_writable(s, WriteEvent::Polled { ready: true }, (fuel - 1) as nat)
                == (c + flush_to_writable(s, wrote, (fuel - 2) as nat).0, flush_to_writable(
                s,
                wrote,
                (fuel - 2) as nat,
            ).1));
            assert(flush_to_writable(s, WriteEvent::Begin, fuel) == flush_to_writable(
                s,
                WriteEvent::Polled { ready: true },
                (fuel - 1) as nat,
            ));
            assert(s.pending() == c + u.pending());
        },
    }
}

/// `tail` is what is left of `whole` once some of its first bytes are gone.
pub open spec fn is_tail_of(tail: Seq<u8>, whole: Seq<u8>) -> bool {
    tail.len() <= whole.len() && tail == whole.skip(whole.len() - tail.len())
}

/// Carries a flushing attempt on from a step's state and action with the socket's replies: while
/// the action asks to poll or to write, the next reply is handed in; the attempt ends at any
/// other action, or when the replies run out.
pub open spec fn continue_flush(state: (SenderView, WriteAction), replies: Seq<WriteEvent>) -> (
    SenderView,
    WriteAction,
)
    decreases replies.len(),
{
    if replies.len() == 0 {
        state
    } else {
        match state.1 {
            WriteAction::PollWrite => continue_flush(
                state.0.write_step(replies[0]),
                replies.drop_first(),
            ),
            WriteAction::Write => continue_flush(
                state.0.write_step(replies[0]),
                replies.drop_first(),
            ),
            _ => state,
        }
    }
}

/// A whole flushing attempt: it begins, then takes the socket's replies in turn.
pub open spec fn flush_attempt(s: SenderView, replies: Seq<WriteEvent>) -> (SenderView, WriteAction) {
    continue_flush(s.write_step(WriteEvent::Begin), replies)
}

/// What holds at every point of a flushing attempt that started from `start`.
pub open spec fn flush_point_ok(start: SenderView, state: (SenderView, WriteAction)) -> bool {
    &&& (state.1 is PollWrite || state.1 is Write) ==> state.0.current is Some
    &&& state.1 == (WriteAction::Finished { all_written: false }) ==> state.0.current is Some
    &&& state.1 == (WriteAction::Finished { all_written: true }) ==> state.0.current is None
        && state.0.queued.len() == 0 && state.0.pending() =~= Seq::<u8>::empty()
    &&& is_tail_of(state.0.pending(), start.pending())
}

proof fn lemma_tail_of_tail(a: Seq<u8>, b: Seq<u8>, c: Seq<u8>)
    requires
        is_tail_of(a, b),
        is_tail_of(b, c),
    ensures
        is_tail_of(a, c),
{
    assert(c.skip(c.len() - b.len()).skip(b.len() - a.len()) =~= c.skip(c.len() - a.len()));
}

proof fn lemma_flush_step_ok(start: SenderView, state: (SenderView, WriteAction), event: WriteEvent)
    requires
        flush_point_ok(start, state),
        state.1 is PollWrite || state.1 is Write,
        !(event is Begin),
    ensures
        flush_point_ok(start, state.0.write_step(event)),
{
    let t = state.0;
    let next = t.write_step(event);
    lemma_write_step_keeps_order(t, event);
    let k = match event {
        WriteEvent::Wrote(WriteOutcome::Written(count)) => if t.current is Some && count < bytes_of(
            t.current,
        ).len() {
            count as int
        } else {
            bytes_of(t.current).len() as int
        },
        _ => 0,
    };
    assert(0 <= k <= t.pending().len());
    assert(is_tail_of(next.0.pending(), t.pending())) by {
        assert(t.pending().skip(k) =~= t.pending().skip(
            t.pending().len() - t.pending().skip(k).len(),
        ));
    }
    lemma_tail_of_tail(next.0.pending(), t.pending(), start.pending());
    match event {
        WriteEvent::Wrote(outcome) => {
            let after = t.after_write(outcome).0;
            if next.1 == (WriteAction::Finished { all_written: true }) {
                assert(after.queued =~= Seq::<Seq<u8>>::empty());
            }
        },
        _ => {},
    }
}

proof fn lemma_continue_flush_ok(
    start: SenderView,
    state: (SenderView, WriteAction),
    replies: Seq<WriteEvent>,
)
    requires
        flush_point_ok(start, state),
        forall|i: int| 0 <= i < replies.len() ==> !(#[trigger] replies[i] is Begin),
    ensures
        flush_point_ok(start, continue_flush(state, replies)),
    decreases replies.len(),
{
    if replies.len() > 0 && (state.1 is PollWrite || state.1 is Write) {
        lemma_flush_step_ok(start, state, replies[0]);
        assert forall|i: int| 0 <= i < replies.drop_first().len() implies !(
        #[trigger] replies.drop_first()[i] is Begin) by {
            assert(replies.drop_first()[i] == replies[i + 1]);
        }
        lemma_continue_flush_ok(start, state.0.write_step(replies[0]), replies.drop_first());
    }
}

/// A whole flushing attempt, whatever the socket replies to each poll and write: when it ends
/// reporting that everything was written, no buffer is in flight, no frame is queued and nothing
/// is pending; when it ends reporting that not
/// everything was written, a buffer is still in flight; and what is pending at any point is what
/// was pending at the start, less some of its first bytes.
pub proof fn lemma_flush_attempt(s: SenderView, replies: Seq<WriteEvent>)
    requires
        forall|i: int| 0 <= i < replies.len() ==> !(#[trigger] replies[i] is Begin),
    ensures
        flush_attempt(s, replies).1 == (WriteAction::Finished { all_written: true })
            ==> flush_attempt(s, replies).0.current is None && flush_attempt(s, replies).0.queued.len()
            == 0 && flush_attempt(s, replies).0.pending() =~= Seq::<u8>::empty(),
        flush_attempt(s, replies).1 == (WriteAction::Finished { all_written: false })
            ==> flush_attempt(s, replies).0.current is Some,
        is_tail_of(flush_attempt(s, replies).0.pending(), s.pending()),
{
    let first = s.write_step(WriteEvent::Begin);
    lemma_prepared_pending(s);
    assert(s.pending().skip(0) =~= s.pending());
    if first.1 == (WriteAction::Finished { all_written: true }) {
        assert(first.0.queued =~= Seq::<Seq<u8>>::empty());
    }
    lemma_continue_flush_ok(s, first, replies);
}

/// What each step of a flushing attempt does, case by case, for every state.
///
/// - Beginning asks to poll when a buffer is in flight or a frame is queued (the oldest frame is
///   put in flight first), and otherwise reports that everything was written.
/// - A poll reply asks to write when the socket is writable, and otherwise ends the attempt with
///   not everything written.
/// - A write that accepted nothing of a non-empty buffer ends the attempt with not everything
///   written and changes nothing.
/// - A write that accepted some but not all of the buffer is progress: the unwritten rest stays
///   in flight and the attempt polls again.
/// - A write that accepted the whole buffer drops it and goes on with the next queued frame, or
///   reports that everything was written when none is queued.
/// - A write that would block ends the attempt with not everything written; a failed write ends
///   it as failed; neither changes anything.
pub proof fn lemma_write_step_cases(s: SenderView, event: WriteEvent)
    ensures
        event == WriteEvent::Begin && s.current is Some ==> s.write_step(event) == (
            s,
            WriteAction::PollWrite,
        ),
        event == WriteEvent::Begin && s.current is None && s.queued.len() > 0 ==> s.write_step(
            event,
        ) == (
            SenderView { current: Some(s.queued[0]), queued: s.queued.drop_first() },
            WriteAction::PollWrite,
        ),
        event == WriteEvent::Begin && s.current is None && s.queued.len() == 0 ==> s.write_step(
            event,
        ) == (s, WriteAction::Finished { all_written: true }),
        event == (WriteEvent::Polled { ready: true }) ==> s.write_step(event) == (
            s,
            WriteAction::Write,
        ),
        event == (WriteEvent::Polled { ready: false }) ==> s.write_step(event) == (
            s,
            WriteAction::Finished { all_written: false },
        ),
        s.current is Some ==> match event {
            WriteEvent::Wrote(WriteOutcome::Written(count)) => {
                let c = bytes_of(s.current);
                &&& (count == 0 && c.len() > 0) ==> s.write_step(event) == (
                    s,
                    WriteAction::Finished { all_written: false },
                )
                &&& (0 < count < c.len()) ==> s.write_step(event) == (
                    SenderView { current: Some(c.skip(count as int)), queued: s.queued },
                    WriteAction::PollWrite,
                )
                &&& (count >= c.len() && s.queued.len() > 0) ==> s.write_step(event) == (
                    SenderView { current: Some(s.queued[0]), queued: s.queued.drop_first() },
                    WriteAction::PollWrite,
                )
                &&& (count >= c.len() && s.queued.len() == 0) ==> s.write_step(event) == (
                    SenderView { current: None, queued: s.queued },
                    WriteAction::Finished { all_written: true },
                )
            },
            WriteEvent::Wrote(WriteOutcome::WouldBlock) => s.write_step(event) == (
                s,
                WriteAction::Finished { all_written: false },
            ),
            WriteEvent::Wrote(WriteOutcome::Failed) => s.write_step(event) == (
                s,
                WriteAction::Failed,
            ),
            _ => true,
        },
{
}

/// A write that the socket accepted in part is progress: `write_next` reports `Ok(true)`, the
/// unwritten rest of the buffer stays in flight, and the queued frames stay as they were.
pub proof fn lemma_partial_write_is_progress(s: SenderView, count: usize)
    requires
        s.current is Some,
        0 < count < bytes_of(s.current).len(),
    ensures
        s.after_write(WriteOutcome::Written(count)) == (
            SenderView { current: Some(bytes_of(s.current).skip(count as int)), queued: s.queued },
            Ok::<bool, WriteFailure>(true),
        ),
        s.after_write(WriteOutcome::Written(count)).0.pending() == s.pending().skip(count as int),
{
    lemma_consumed_pending(s, WriteOutcome::Written(count));
}

// ---------------------------------------------------------------------------------------------
// Receiving side
// ---------------------------------------------------------------------------------------------

/// Payload length announced by the frame header at the front of `buf`: its first three bytes,
/// big endian.
pub open spec fn payload_len(buf: Seq<u8>) -> nat {
    (buf[0] as nat) * 65536 + (buf[1] as nat) * 256 + (buf[2] as nat)
}

/// Length of the complete frame at the front of `buf`: `None` while the header or part of the
/// payload is still missing.
pub open spec fn next_frame_len(buf: Seq<u8>) -> Option<nat> {
    if buf.len() >= 9 && 9 + payload_len(buf) <= buf.len() {
        Some(9 + payload_len(buf))
    } else {
        None
    }
}

/// Reads the four fields of a raw frame header through solicit's `frame::unpack_header`, which
/// is claimed to return the payload length as the first three bytes (big endian), the frame type
/// as the fourth byte, the flags as the fifth, and the stream id as the last four bytes (big
/// endian).
#[verifier::external_body]
fn unpack_frame_header(header: &[u8; 9]) -> (h: (u32, u8, u8, u32))
    ensures
        h.0 == payload_len(header@),
        h.1 == header@[3],
        h.2 == header@[4],
        h.3 == (header@[5] as nat) * 16777216 + (header@[6] as nat) * 65536 + (header@[7] as nat)
            * 256 + (header@[8] as nat),
{
    solicit::http::frame::unpack_header(header)
}

/// What a single `read_to_end` on the socket reported, next to the bytes it delivered.
#[derive(Clone, Copy, Debug, PartialEq, Eq, Structural)]
pub enum ReadOutcome {
    /// The read reached the end of the stream.
    EndOfStream,
    /// The read stopped because it would have blocked.
    WouldBlock,
    /// The read failed with an error other than `WouldBlock`.
    Failed,
}

/// An event handed to `FrameReceiver::try_read`.
pub enum ReadEvent {
    /// A new attempt to read whatever the socket has available starts.
    Begin,
    /// A `read_to_end` on the socket delivered `data` and then stopped as `outcome` says.
    Read { data: Vec<u8>, outcome: ReadOutcome },
}

/// What `FrameReceiver::try_read` asks its caller to do next.
#[derive(Clone, Copy, Debug, PartialEq, Eq, Structural)]
pub enum ReadAction {
    /// Read to the end of the socket and report back with `ReadEvent::Read`.
    Read,
    /// The attempt is over; `total` bytes were read during it.
    Done { total: usize },
    /// The attempt is over: the socket hit its end while more data was expected.
    UnexpectedEof,
    /// The attempt is over: the socket error that was reported is to be propagated.
    Failed,
}

/// The abstract state of a `FrameReceiver`.
pub struct ReceiverView {
    /// Bytes read off the socket that do not form a handled frame yet.
    pub buffer: Seq<u8>,
    /// Where in `buffer` the current read attempt started.
    pub mark: nat,
}

impl ReceiverView {
    /// One step of the reading loop: the new state and the next action for an event.
    pub open spec fn read_step(self, event: ReadEvent) -> (ReceiverView, ReadAction) {
        match event {
            ReadEvent::Begin => (
                ReceiverView { buffer: self.buffer, mark: self.buffer.len() },
                ReadAction::Read,
            ),
            ReadEvent::Read { data, outcome } => {
                let next = ReceiverView { buffer: self.buffer + data@, mark: self.mark };
                match outcome {
                    ReadOutcome::EndOfStream => if data@.len() == 0 {
                        (next, ReadAction::UnexpectedEof)
                    } else {
                        (next, ReadAction::Read)
                    },
                    ReadOutcome::WouldBlock => (
                        next,
                        ReadAction::Done { total: (next.buffer.len() - self.mark) as usize },
                    ),
                    ReadOutcome::Failed => (next, ReadAction::Failed),
                }
            },
        }
    }

    /// The state after the first `size` buffered bytes are dropped; the mark keeps pointing at
    /// the same byte (or at the front, if that byte was dropped).
    pub open spec fn discarded(self, size: nat) -> ReceiverView {
        ReceiverView {
            buffer: self.buffer.skip(size as int),
            mark: if self.mark >= size { (self.mark - size) as nat } else { 0 },
        }
    }
}

/// A complete frame cut off the front of the receive buffer, borrowed from it without a copy.
pub struct FrameContainer<'a> {
    frame: &'a [u8],
    size: usize,
}

impl<'a> FrameContainer<'a> {
    /// The bytes of the frame, header included.
    pub closed spec fn bytes(&self) -> Seq<u8> {
        self.frame@
    }

    /// Creates a new `FrameContainer` that wraps the given frame bytes.
    fn new(frame: &'a [u8]) -> (c: FrameContainer<'a>)
        ensures
            c.bytes() == frame@,
            c.len() == frame@.len(),
    {
        let size = frame.len();
        FrameContainer { frame, size }
    }

    /// Returns the byte length of the frame that it wraps.
    #[verifier::when_used_as_spec(spec_len)]
    pub fn len(&self) -> (n: usize)
        ensures
            n == self.spec_len(),
    {
        self.size
    }

    /// The byte length of the wrapped frame.
    pub closed spec fn spec_len(&self) -> usize {
        self.size
    }

    /// The raw bytes of the frame, header included.
    pub fn frame(&self) -> (f: &'a [u8])
        ensures
            f@ == self.bytes(),
    {
        self.frame
    }
}

/// Accumulates bytes read off the socket and cuts complete HTTP/2 frames off their front.
pub struct FrameReceiver {
    /// Data that has been read so far, but does not form a handled frame yet.
    in_buf: Vec<u8>,
    /// Length of `in_buf` when the current read attempt started.
    read_mark: usize,
}

impl View for FrameReceiver {
    type V = ReceiverView;

    closed spec fn view(&self) -> ReceiverView {
        ReceiverView { buffer: self.in_buf@, mark: self.read_mark as nat }
    }
}

impl FrameReceiver {
    /// The mark of the current read attempt lies within the buffer.
    pub closed spec fn wf(&self) -> bool {
        self.read_mark <= self.in_buf.len()
    }

    /// Creates a `FrameReceiver` with an empty buffer.
    pub fn new() -> (r: FrameReceiver)
        ensures
            r.wf(),
            r@.buffer == Seq::<u8>::empty(),
            r@.mark == 0,
            r@.mark <= r@.buffer.len(),
    {
        FrameReceiver { in_buf: Vec::new(), read_mark: 0 }
    }

    /// Attempts to read whatever is available from the socket.
    ///
    /// This is one step of that attempt. Start it with `ReadEvent::Begin` and keep feeding back
    /// what each requested `read_to_end` delivered. The attempt ends with the number of bytes
    /// read once the socket would block; with `UnexpectedEof` when the socket hits its end, as
    /// more data was expected; and with `Failed` on any other socket error. Every delivered byte
    /// is appended to the buffer, whatever the outcome.
    pub fn try_read(&mut self, event: ReadEvent) -> (action: ReadAction)
        requires
            old(self).wf(),
        ensures
            final(self).wf(),
            (final(self)@, action) == old(self)@.read_step(event),
            match event {
                ReadEvent::Read { data, outcome } => {
                    &&& final(self)@.buffer == old(self)@.buffer + data@
                    &&& final(self)@.mark == old(self)@.mark
                    &&& (outcome == ReadOutcome::EndOfStream && data@.len() == 0) ==> action
                        == ReadAction::UnexpectedEof
                },
                ReadEvent::Begin => final(self)@.mark == old(self)@.buffer.len(),
            },
            final(self)@.mark <= final(self)@.buffer.len(),
            final(self)@.buffer.len() >= old(self)@.buffer.len(),
            final(self)@.buffer.take(old(self)@.buffer.len() as int) == old(self)@.buffer,
            action matches ReadAction::Done { total } ==> final(self)@.buffer.len()
                == final(self)@.mark + total,
    {
        match event {
            ReadEvent::Begin => {
                self.read_mark = self.in_buf.len();
                ReadAction::Read
            },
            ReadEvent::Read { data, outcome } => {
                let mut data = data;
                let got = data.len();
                self.in_buf.append(&mut data);
                match outcome {
                    ReadOutcome::EndOfStream => {
                        if got == 0 {
                            ReadAction::UnexpectedEof
                        } else {
                            ReadAction::Read
                        }
                    },
                    ReadOutcome::WouldBlock => {
                        // The buffer only grew since the mark was set.
                        ReadAction::Done { total: self.in_buf.len() - self.read_mark }
                    },
                    ReadOutcome::Failed => ReadAction::Failed,
                }
            },
        }
    }

    /// Number of buffered bytes.
    pub fn buffered_len(&self) -> (n: usize)
        ensures
            n == self@.buffer.len(),
    {
        self.in_buf.len()
    }

    /// Attempts to parse the current contents of the input buffer for an h2 frame.
    /// If successful returns a `FrameContainer` wrapping the frame, which borrows the frame's
    /// bytes from the internal buffer.
    pub fn get_next_frame(&self) -> (frame: Option<FrameContainer<'_>>)
        ensures
            match frame {
                Some(c) => {
                    &&& next_frame_len(self@.buffer) == Some(c.len() as nat)
                    &&& c.bytes() == self@.buffer.take(c.len() as int)
                },
                None => next_frame_len(self@.buffer) is None,
            },
    {
        if self.in_buf.len() < 9 {
            return None;
        }
        let header: [u8; 9] = [
            self.in_buf[0],
            self.in_buf[1],
            self.in_buf[2],
            self.in_buf[3],
            self.in_buf[4],
            self.in_buf[5],
            self.in_buf[6],
            self.in_buf[7],
            self.in_buf[8],
        ];
        let (length, _frame_type, _flags, _stream_id) = unpack_frame_header(&header);
        assert(payload_len(header@) == payload_len(self@.buffer));
        let available = self.in_buf.len() - 9;
        if (length as usize) <= available {
            let size = 9 + length as usize;
            let bytes = vstd::slice::slice_subrange(self.in_buf.as_slice(), 0, size);
            proof {
                assert(bytes@ =~= self@.buffer.take(size as int));
            }
            Some(FrameContainer::new(bytes))
        } else {
            None
        }
    }

    /// Discards the first `size` bytes (the frame just handled) from the buffered input.
    pub fn discard_frame(&mut self, size: usize)
        requires
            old(self).wf(),
            size <= old(self)@.buffer.len(),
        ensures
            final(self).wf(),
            final(self)@ == old(self)@.discarded(size as nat),
            final(self)@.buffer == old(self)@.buffer.skip(size as int),
            final(self)@.buffer.len() == old(self)@.buffer.len() - size,
            final(self)@.mark <= final(self)@.buffer.len(),
    {
        let rest = self.in_buf.split_off(size);
        self.in_buf = rest;
        if self.read_mark >= size {
            self.read_mark = self.read_mark - size;
        } else {
            self.read_mark = 0;
        }
        proof {
            assert(self@.buffer =~= old(self)@.buffer.skip(size as int));
        }
    }
}

/// A read attempt that gets `data` and then would block reports exactly the bytes of `data` as
/// read, and leaves them at the end of the buffer.
pub proof fn lemma_read_attempt_total(s: ReceiverView, data: Vec<u8>)
    requires
        s.buffer.len() + data@.len() <= usize::MAX,
    ensures
        ({
            let (begun, _) = s.read_step(ReadEvent::Begin);
            let (after, action) = begun.read_step(
                ReadEvent::Read { data, outcome: ReadOutcome::WouldBlock },
            );
            &&& action == (ReadAction::Done { total: data@.len() as usize })
            &&& after.buffer == s.buffer + data@
        }),
{
}

/// Parsing looks at the front of the buffer only: a complete frame followed by any further
/// bytes is recognized as that frame, and discarding it leaves exactly those further bytes.
pub proof fn lemma_frame_then_rest(frame: Seq<u8>, rest: Seq<u8>)
    requires
        next_frame_len(frame) == Some(frame.len()),
    ensures
        next_frame_len(frame + rest) == Some(frame.len()),
        (frame + rest).take(frame.len() as int) == frame,
        (frame + rest).skip(frame.len() as int) == rest,
{
    let buf = frame + rest;
    assert(buf[0] == frame[0] && buf[1] == frame[1] && buf[2] == frame[2]);
    assert(buf.take(frame.len() as int) =~= frame);
    assert(buf.skip(frame.len() as int) =~= rest);
}

/// Handling the buffer frame by frame, for at most `fuel` frames: the frames cut off its front,
/// in order, and what is left of the buffer.
pub open spec fn cut_frames(buf: Seq<u8>, fuel: nat) -> (Seq<Seq<u8>>, Seq<u8>)
    decreases fuel,
{
    if fuel == 0 {
        (Seq::empty(), buf)
    } else {
        match next_frame_len(buf) {
            Some(n) => {
                let (frames, tail) = cut_frames(buf.skip(n as int), (fuel - 1) as nat);
                (seq![buf.take(n as int)] + frames, tail)
            },
            None => (Seq::empty(), buf),
        }
    }
}

/// A buffer that holds complete frames followed by the start of an incomplete one is cut into
/// exactly those frames, in their order, and the incomplete start is all that stays buffered.
pub proof fn lemma_frames_cut_in_order(frames: Seq<Seq<u8>>, tail: Seq<u8>)
    requires
        forall|i: int| 0 <= i < frames.len() ==> next_frame_len(#[trigger] frames[i]) == Some(
            frames[i].len(),
        ),
        next_frame_len(tail) is None,
    ensures
        cut_frames(frames.flatten() + tail, frames.len() + 1) == (frames, tail),
    decreases frames.len(),
{
    if frames.len() == 0 {
        assert(frames.flatten() + tail =~= tail);
        assert(frames =~= Seq::<Seq<u8>>::empty());
    } else {
        let first = frames[0];
        let rest = frames.drop_first();
        assert forall|i: int| 0 <= i < rest.len() implies next_frame_len(#[trigger] rest[i])
            == Some(rest[i].len()) by {
            assert(rest[i] == frames[i + 1]);
        }
        lemma_frames_cut_in_order(rest, tail);
        assert(frames.flatten() == first + rest.flatten());
        let buf = frames.flatten() + tail;
        assert(buf =~= first + (rest.flatten() + tail));
        lemma_frame_then_rest(first, rest.flatten() + tail);
        assert(seq![first] + rest =~= frames);
    }
}

/// Bytes delivered by a list of reads.
pub open spec fn delivered(replies: Seq<ReadEvent>) -> nat
    decreases replies.len(),
{
    if replies.len() == 0 {
        0
    } else {
        (match replies[0] {
            ReadEvent::Read { data, outcome: _ } => data@.len(),
            ReadEvent::Begin => 0,
        }) + delivered(replies.drop_first())
    }
}

/// Carries a read attempt on from a step's state and action with the socket's reads: while the
/// action asks for a read, the next read is handed in; the attempt ends at any other action, or
/// when the reads run out.
pub open spec fn continue_read(state: (ReceiverView, ReadAction), replies: Seq<ReadEvent>) -> (
    ReceiverView,
    ReadAction,
)
    decreases replies.len(),
{
    if replies.len() == 0 {
        state
    } else {
        match state.1 {
            ReadAction::Read => continue_read(state.0.read_step(replies[0]), replies.drop_first()),
            _ => state,
        }
    }
}

/// A whole read attempt: it begins, then takes the socket's reads in turn.
pub open spec fn read_attempt(s: ReceiverView, replies: Seq<ReadEvent>) -> (ReceiverView, ReadAction) {
    continue_read(s.read_step(ReadEvent::Begin), replies)
}

/// What holds at every point of a read attempt that started from `start`, with `left` bytes
/// still to be delivered.
pub open spec fn read_point_ok(start: ReceiverView, state: (ReceiverView, ReadAction), left: nat) -> bool {
    &&& state.0.mark == start.buffer.len()
    &&& state.0.buffer.len() >= start.buffer.len()
    &&& state.0.buffer.take(start.buffer.len() as int) == start.buffer
    &&& state.0.buffer.len() + left <= usize::MAX
    &&& state.1 matches ReadAction::Done { total } ==> state.0.buffer.len() == start.buffer.len()
        + total
}

proof fn lemma_continue_read_ok(
    start: ReceiverView,
    state: (ReceiverView, ReadAction),
    replies: Seq<ReadEvent>,
)
    requires
        read_point_ok(start, state, delivered(replies)),
        forall|i: int| 0 <= i < replies.len() ==> !(#[trigger] replies[i] is Begin),
    ensures
        read_point_ok(start, continue_read(state, replies), 0),
    decreases replies.len(),
{
    if replies.len() > 0 && state.1 is Read {
        let e = replies[0];
        let rest = replies.drop_first();
        let next = state.0.read_step(e);
        match e {
            ReadEvent::Read { data, outcome: _ } => {
                assert(next.0.buffer.take(start.buffer.len() as int) =~= start.buffer);
            },
            ReadEvent::Begin => {},
        }
        assert forall|i: int| 0 <= i < rest.len() implies !(#[trigger] rest[i] is Begin) by {
            assert(rest[i] == replies[i + 1]);
        }
        lemma_continue_read_ok(start, next, rest);
    }
}

/// A whole read attempt, however many reads it takes and whatever they report: the bytes that
/// were buffered before stay at the front of the buffer, and when it ends with the number of
/// bytes read, exactly that many bytes were appended.
pub proof fn lemma_read_attempt(s: ReceiverView, replies: Seq<ReadEvent>)
    requires
        forall|i: int| 0 <= i < replies.len() ==> !(#[trigger] replies[i] is Begin),
        s.buffer.len() + delivered(replies) <= usize::MAX,
    ensures
        read_attempt(s, replies).0.buffer.len() >= s.buffer.len(),
        read_attempt(s, replies).0.buffer.take(s.buffer.len() as int) == s.buffer,
        read_attempt(s, replies).1 matches ReadAction::Done { total } ==> read_attempt(
            s,
            replies,
        ).0.buffer.len() == s.buffer.len() + total,
{
    assert(s.buffer.take(s.buffer.len() as int) =~= s.buffer);
    lemma_continue_read_ok(s, s.read_step(ReadEvent::Begin), replies);
}

/// What each step of a read attempt does, for every state and every read: beginning marks
/// the current end of the buffer and asks for a read; a read appends what it delivered, whatever
/// it reports; a read that reached the end of the stream without delivering anything ends the
/// attempt as an unexpected end (whatever was read before in the attempt), and one that delivered
/// something asks for another read; a read that would block ends the attempt with the number of
/// bytes appended since the mark; a failed read ends it as failed. The mark never moves during a
/// read.
pub proof fn lemma_read_step_cases(s: ReceiverView, data: Vec<u8>, outcome: ReadOutcome)
    requires
        s.mark <= s.buffer.len(),
        s.buffer.len() + data@.len() <= usize::MAX,
    ensures
        s.read_step(ReadEvent::Begin) == (
            ReceiverView { buffer: s.buffer, mark: s.buffer.len() },
            ReadAction::Read,
        ),
        s.read_step(ReadEvent::Read { data, outcome }).0 == (ReceiverView {
            buffer: s.buffer + data@,
            mark: s.mark,
        }),
        outcome == ReadOutcome::EndOfStream && data@.len() == 0 ==> s.read_step(
            ReadEvent::Read { data, outcome },
        ).1 == ReadAction::UnexpectedEof,
        outcome == ReadOutcome::EndOfStream && data@.len() > 0 ==> s.read_step(
            ReadEvent::Read { data, outcome },
        ).1 == ReadAction::Read,
        outcome == ReadOutcome::WouldBlock ==> s.read_step(ReadEvent::Read { data, outcome }).1
            == (ReadAction::Done { total: (s.buffer.len() - s.mark + data@.len()) as usize }),
        outcome == ReadOutcome::Failed ==> s.read_step(ReadEvent::Read { data, outcome }).1
            == ReadAction::Failed,
{
}

/// Discarding `size` bytes, for any size up to the whole buffer, leaves exactly the buffer
/// without its first `size` bytes; discarding everything leaves it empty. The mark keeps
/// pointing at the same byte, or at the front when that byte was discarded.
pub proof fn lemma_discard_cases(s: ReceiverView, size: nat)
    requires
        size <= s.buffer.len(),
    ensures
        s.discarded(size).buffer.len() == s.buffer.len() - size,
        forall|i: int|
            0 <= i < s.buffer.len() - size ==> #[trigger] s.discarded(size).buffer[i] == s.buffer[i
                + size],
        size == s.buffer.len() ==> s.discarded(size).buffer =~= Seq::<u8>::empty(),
        s.mark >= size ==> s.discarded(size).mark == s.mark - size,
        s.mark < size ==> s.discarded(size).mark == 0,
{
}

/// A frame is recognized at the front of the buffer exactly when the nine header bytes are there
/// and the payload that their first three bytes announce (big endian) follows in full; the frame
/// then spans the header and that payload.
pub proof fn lemma_next_frame_len_cases(buf: Seq<u8>)
    ensures
        buf.len() < 9 ==> next_frame_len(buf) is None,
        buf.len() >= 9 ==> {
            let announced = (buf[0] as nat) * 65536 + (buf[1] as nat) * 256 + (buf[2] as nat);
            &&& 9 + announced <= buf.len() ==> next_frame_len(buf) == Some(9 + announced)
            &&& 9 + announced > buf.len() ==> next_frame_len(buf) is None
        },
{
}

} // verus!
