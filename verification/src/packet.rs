//! The packet layer: a state machine that says what to do next with the object
//! underneath, and takes in what came of it.
use crate::error::PacketError;
use crate::flow::{
    after_event, answered, chunk_len, delivered, encoded, fresh, more_to_do, read_begun,
    read_filled, read_resumed, write_begun, Flow, Refusal,
};
use crate::frame::{joined, law_first_message_stable, packets, views};
use crate::incoming::{in_order, Received};
use crate::outgoing::{big_write, drop_written, push_packets};
use crate::step::{
    FillEvent, FlushAction, FlushEvent, FlushStep, HandshakeEvent, Phase, ReadAction,
    ReadActionView, ReadStep, ReadStepView, ShutdownAction, WriteAction, WriteActionView,
    WriteEvent, WriteStep,
};
use crate::transform::PacketDataTransform;
use vstd::prelude::*;
use vstd::slice::{slice_subrange, slice_to_vec};

verus! {

/// A layer on top of some object that can be read from and written to, which
/// performs a transformation of some kind.
///
/// The object itself is not held here. Each operation is a sequence of steps: a
/// step names the action to perform on the object, and the next step is given
/// what came of it.
#[derive(Debug)]
pub struct AsyncIoPacket<U: PacketDataTransform> {
    /// performs some transform when reading and writing
    transform: U,
    /// received packets. the last packet in this list may be incomplete
    read_packet_buf: Received,
    /// transformed bytes that are left over from the last read
    remaining: Vec<u8>,
    /// packets that wait to be written
    write_packet_buf: Vec<Vec<u8>>,
}

impl<U: PacketDataTransform> View for AsyncIoPacket<U> {
    type V = Flow<U>;

    closed spec fn view(&self) -> Flow<U> {
        Flow {
            transform: self.transform,
            incoming: self.read_packet_buf@,
            remaining: self.remaining@,
            outgoing: views(self.write_packet_buf@),
        }
    }
}

// ---------------------------------------------------------------------------
// Reading
// ---------------------------------------------------------------------------

/// How far the delivery of messages has come.
enum Progress {
    /// It ends with this step.
    Stop(ReadStep),
    /// It goes on, with this output so far and this much room left.
    More(Vec<u8>, usize),
}

/// A step without output.
fn bare_step(wake: bool, action: ReadAction) -> (step: ReadStep)
    ensures
        step@ == (ReadStepView { output: seq![], wake, action: action@ }),
{
    ReadStep { output: Vec::new(), wake, action }
}

impl<U: PacketDataTransform> AsyncIoPacket<U> {
    /// The packets that have been received, the last of which may be incomplete.
    pub closed spec fn read_packets(&self) -> Seq<Seq<u8>> {
        self.read_packet_buf.packets()
    }

    /// The received bytes are kept as packets, each of the length that its header
    /// states but for the last, which is no longer than that. Every layer is framed
    /// from the start, and whatever bytes arrive, it stays so.
    pub open spec fn framed(&self) -> bool {
        &&& in_order(self.read_packets())
        &&& joined(self.read_packets()) == self@.incoming
    }

    /// A packet layer with the given transform.
    pub fn new(transform: U) -> (p: Self)
        ensures
            p@ == fresh(transform),
            p.framed(),
    {
        let p = Self {
            transform,
            read_packet_buf: Received::new(),
            remaining: Vec::new(),
            write_packet_buf: Vec::new(),
        };
        proof {
            assert(p@.outgoing =~= seq![]);
        }
        p
    }

    /// Takes chunks out of the data and makes write packets out of them, with the
    /// continuation flag on each packet except the last one. Optionally flags these
    /// packets as handshake packets.
    pub fn make_write_packets_from_data(&mut self, data: Vec<u8>, handshake: bool)
        ensures
            final(self)@ == (Flow {
                outgoing: old(self)@.outgoing + packets(data@, handshake),
                ..old(self)@
            }),
            old(self).framed() ==> final(self).framed(),
    {
        push_packets(&mut self.write_packet_buf, data.as_slice(), handshake);
    }

    /// Takes in what came of a write. Returns whether to wake up again.
    fn note_write(&mut self, event: WriteEvent) -> (wake: bool)
        ensures
            final(self)@ == after_event(old(self)@, event),
            wake == (event is Done && more_to_do(final(self)@)),
            old(self).framed() ==> final(self).framed(),
    {
        if let WriteEvent::Done(n) = event {
            drop_written(&mut self.write_packet_buf, n);
            self.transform.handshaking() || self.write_packet_buf.len() > 0
        } else {
            false
        }
    }

    /// Begins a read.
    pub fn begin_read(&mut self) -> (step: ReadStep)
        ensures
            read_begun(old(self)@, final(self)@, step@),
            old(self).framed() ==> final(self).framed(),
    {
        if self.transform.handshaking() && self.transform.need_to_start_handshake() {
            let empty: Vec<u8> = Vec::new();
            assert(empty@ =~= seq![]);
            return match self.transform.handshake_step(empty.as_slice()) {
                Err(e) => bare_step(false, ReadAction::Fail(PacketError::Handshake(e))),
                Ok(()) => self.answer(Phase::KickOff, Vec::new()),
            };
        }
        if self.transform.handshaking() && self.write_packet_buf.len() > 0 {
            let bytes = big_write(&self.write_packet_buf);
            return bare_step(false, ReadAction::Write(Phase::Drain, bytes));
        }
        bare_step(false, ReadAction::Fill)
    }

    /// If there are handshake bytes to send to the other side, sends them.
    fn answer(&mut self, phase: Phase, output: Vec<u8>) -> (step: ReadStep)
        ensures
            step@.output == output@,
            answered(old(self)@, phase, final(self)@, step@),
            old(self).framed() ==> final(self).framed(),
    {
        if self.transform.poisoned() {
            return ReadStep { output, wake: false, action: ReadAction::Poisoned };
        }
        match self.transform.handshake_bytes() {
            Err(e) => ReadStep {
                output,
                wake: false,
                action: ReadAction::Fail(PacketError::Handshake(e)),
            },
            Ok(None) => ReadStep { output, wake: true, action: ReadAction::Wait },
            Ok(Some(bytes)) => {
                self.make_write_packets_from_data(bytes, true);
                if self.write_packet_buf.len() == 0 {
                    ReadStep { output, wake: true, action: ReadAction::Wait }
                } else {
                    let bytes = big_write(&self.write_packet_buf);
                    ReadStep { output, wake: false, action: ReadAction::Write(phase, bytes) }
                }
            },
        }
    }

    /// Goes on with a read after a write.
    pub fn read_after_write(&mut self, phase: Phase, event: WriteEvent) -> (step: ReadStep)
        ensures
            final(self)@ == after_event(old(self)@, event),
            step@ == read_resumed(final(self)@, phase, event),
            old(self).framed() ==> final(self).framed(),
    {
        let wake = self.note_write(event);
        match event {
            WriteEvent::Failed => bare_step(false, ReadAction::IoError),
            WriteEvent::Done(_) if matches!(phase, Phase::Drain) => {
                if self.write_packet_buf.len() > 0 {
                    // go on until all the handshake packets are out
                    let bytes = big_write(&self.write_packet_buf);
                    bare_step(wake, ReadAction::Write(Phase::Drain, bytes))
                } else {
                    bare_step(wake, ReadAction::Fill)
                }
            },
            // nothing but handshake bytes has been read or written. wake up to
            // continue the handshake
            _ => bare_step(true, ReadAction::Wait),
        }
    }

    /// Goes on with a read after the object underneath has been read from. The
    /// reader has room for so many bytes.
    pub fn read_after_fill(&mut self, event: FillEvent, room: usize) -> (step: ReadStep)
        ensures
            match event {
                FillEvent::Pending => read_filled(
                    old(self)@,
                    seq![],
                    room as nat,
                    final(self)@,
                    step@,
                ),
                FillEvent::Filled(bytes) => read_filled(
                    old(self)@,
                    bytes@,
                    room as nat,
                    final(self)@,
                    step@,
                ),
                FillEvent::Failed => final(self)@ == old(self)@ && step@ == (ReadStepView {
                    output: seq![],
                    wake: false,
                    action: ReadActionView::IoError,
                }),
            },
            old(self).framed() ==> final(self).framed(),
    {
        let filled = match event {
            // nothing new, but there may be something buffered
            FillEvent::Pending => Vec::new(),
            FillEvent::Filled(bytes) => bytes,
            FillEvent::Failed => return bare_step(false, ReadAction::IoError),
        };
        self.read_packet_buf.append(filled.as_slice());
        // bytes remaining from the last message come first
        let left: usize = self.remaining.len();
        if left > room {
            let output = slice_to_vec(slice_subrange(self.remaining.as_slice(), 0, room));
            let rest = slice_to_vec(slice_subrange(self.remaining.as_slice(), room, left));
            proof {
                assert(output@ =~= self.remaining@.take(room as int));
                assert(rest@ =~= self.remaining@.skip(room as int));
            }
            self.remaining = rest;
            return ReadStep { output, wake: false, action: ReadAction::Ready };
        }
        let mut output: Vec<u8> = Vec::new();
        std::mem::swap(&mut self.remaining, &mut output);
        assert(self.remaining@ =~= seq![]);
        self.deliver(output, room - left)
    }

    /// Passes packeted data to the transform, message by message.
    fn deliver(&mut self, output: Vec<u8>, room: usize) -> (step: ReadStep)
        ensures
            delivered(
                old(self)@,
                output@,
                room as nat,
                output@.len() > 0,
                final(self)@,
                step@,
            ),
            old(self).framed() ==> final(self).framed(),
    {
        let mut wrote: bool = output.len() > 0;
        let mut so_far = output;
        let mut left: usize = room;
        loop
            invariant
                old(self).framed() ==> self.framed(),
                forall|post: Flow<U>, step: ReadStepView| #[trigger]
                    delivered(self@, so_far@, left as nat, wrote, post, step) ==> delivered(
                        old(self)@,
                        output@,
                        room as nat,
                        output@.len() > 0,
                        post,
                        step,
                    ),
            decreases self@.incoming.len(),
        {
            match self.deliver_one(so_far, left, wrote) {
                Progress::Stop(step) => {
                    return step;
                },
                Progress::More(more, still_left) => {
                    so_far = more;
                    left = still_left;
                    wrote = true;
                },
            }
        }
    }

    /// Passes the first message to the transform, if it has fully arrived.
    fn deliver_one(&mut self, output: Vec<u8>, left: usize, wrote: bool) -> (r: Progress)
        ensures
            match r {
                Progress::Stop(step) => delivered(
                    old(self)@,
                    output@,
                    left as nat,
                    wrote,
                    final(self)@,
                    step@,
                ),
                Progress::More(more, still_left) => {
                    &&& final(self)@.incoming.len() < old(self)@.incoming.len()
                    &&& forall|post: Flow<U>, step: ReadStepView| #[trigger]
                        delivered(final(self)@, more@, still_left as nat, true, post, step)
                            ==> delivered(old(self)@, output@, left as nat, wrote, post, step)
                },
            },
            old(self).framed() ==> final(self).framed(),
    {
        let ghost pre = self@;
        let ghost out = output@;
        let mut output = output;
        let message = match self.read_packet_buf.first() {
            None => {
                let action = if wrote {
                    ReadAction::Ready
                } else {
                    ReadAction::Wait
                };
                let wake = !wrote && (self.transform.handshaking()
                    || !self.read_packet_buf.is_empty());
                return Progress::Stop(ReadStep { output, wake, action });
            },
            Some(message) => message,
        };
        proof {
            law_first_message_stable(pre.incoming, seq![]);
        }
        if self.transform.handshaking() {
            // each packet is expected to be a handshake packet, and the other
            // side to hold back data
            if !message.all_handshake {
                let action = ReadAction::Fail(PacketError::DataInHandshake);
                return Progress::Stop(ReadStep { output, wake: false, action });
            }
            return match self.transform.handshake_step(message.data.as_slice()) {
                Err(e) => {
                    let action = ReadAction::Fail(PacketError::Handshake(e));
                    Progress::Stop(ReadStep { output, wake: false, action })
                },
                Ok(()) => {
                    self.read_packet_buf.drop_front(message.packets);
                    Progress::Stop(self.answer(Phase::Reply, output))
                },
            };
        }
        if message.any_handshake {
            let action = ReadAction::Fail(PacketError::HandshakeInData);
            return Progress::Stop(ReadStep { output, wake: false, action });
        }
        if self.transform.poisoned() {
            return Progress::Stop(ReadStep { output, wake: false, action: ReadAction::Poisoned });
        }
        match self.transform.read_payload(message.data.as_slice()) {
            Err(e) => {
                let action = ReadAction::Fail(PacketError::Payload(e));
                Progress::Stop(ReadStep { output, wake: false, action })
            },
            Ok(payload) => {
                self.read_packet_buf.drop_front(message.packets);
                if payload.len() > left {
                    // not enough room for all of the payload. the rest is kept
                    output.extend_from_slice(slice_subrange(payload.as_slice(), 0, left));
                    self.remaining.extend_from_slice(
                        slice_subrange(payload.as_slice(), left, payload.len()),
                    );
                    proof {
                        assert(output@ =~= out + payload@.take(left as int));
                        assert(self.remaining@ =~= pre.remaining + payload@.skip(left as int));
                    }
                    return Progress::Stop(
                        ReadStep { output, wake: false, action: ReadAction::Ready },
                    );
                }
                output.extend_from_slice(payload.as_slice());
                assert(output@ =~= out + payload@);
                Progress::More(output, left - payload.len())
            },
        }
    }
}

// ---------------------------------------------------------------------------
// Writing
// ---------------------------------------------------------------------------

impl<U: PacketDataTransform> AsyncIoPacket<U> {
    /// Begins a write. Unless it fails or waits for the handshake, the bytes are taken
    /// here: they are queued, whatever comes of the write to the object underneath.
    pub fn begin_write(&mut self, buf: &[u8]) -> (step: WriteStep)
        ensures
            write_begun(old(self)@, buf@, final(self)@, step.wake, step.action@),
            old(self).framed() ==> final(self).framed(),
    {
        if self.transform.handshaking() {
            // no bytes can be transformed yet
            return WriteStep { wake: false, action: WriteAction::Handshake };
        }
        if buf.len() == 0 {
            return WriteStep { wake: false, action: WriteAction::Ready(0) };
        }
        match self.encode(buf) {
            Err(Refusal::Poisoned) => WriteStep { wake: false, action: WriteAction::Poisoned },
            Err(Refusal::Refused(e)) => WriteStep {
                wake: false,
                action: WriteAction::Fail(PacketError::Message(e)),
            },
            Ok(()) => if self.write_packet_buf.len() == 0 {
                WriteStep { wake: false, action: WriteAction::Ready(buf.len()) }
            } else {
                let bytes = big_write(&self.write_packet_buf);
                WriteStep { wake: false, action: WriteAction::Write(bytes) }
            },
        }
    }

    /// Transforms the data and makes packets out of it.
    fn encode(&mut self, data: &[u8]) -> (r: Result<(), Refusal>)
        ensures
            encoded(
                old(self)@,
                data@,
                final(self)@,
                match r {
                    Ok(_) => None,
                    Err(refusal) => Some(refusal),
                },
            ),
            old(self).framed() ==> final(self).framed(),
    {
        let mut at: usize = 0;
        assert(data@.skip(0) =~= data@);
        while at < data.len()
            invariant
                at <= data@.len(),
                old(self).framed() ==> self.framed(),
                forall|post: Flow<U>, refusal: Option<Refusal>| #[trigger]
                    encoded(self@, data@.skip(at as int), post, refusal) ==> encoded(
                        old(self)@,
                        data@,
                        post,
                        refusal,
                    ),
            decreases data@.len() - at,
        {
            let ghost pre = self@;
            let ghost rest = data@.skip(at as int);
            let left: usize = data.len() - at;
            let size: usize = match self.transform.max_payload_bytes() {
                Some(limit) if 0 < limit && limit < left => limit,
                _ => left,
            };
            if self.transform.poisoned() {
                assert(encoded(pre, rest, self@, Some(Refusal::Poisoned)));
                return Err(Refusal::Poisoned);
            }
            assert(size == chunk_len(pre.transform, rest));
            let chunk = slice_subrange(data, at, at + size);
            assert(chunk@ =~= rest.take(size as int));
            assert(data@.skip(at + size) =~= rest.skip(size as int));
            match self.transform.write_message(chunk) {
                Err(e) => {
                    assert(encoded(pre, rest, self@, Some(Refusal::Refused(e))));
                    return Err(Refusal::Refused(e));
                },
                Ok(msg) => {
                    let ghost bytes = msg@;
                    self.make_write_packets_from_data(msg, false);
                    assert forall|post: Flow<U>, refusal: Option<Refusal>| #[trigger]
                        encoded(self@, rest.skip(size as int), post, refusal) implies encoded(
                        pre,
                        rest,
                        post,
                        refusal,
                    ) by {
                        assert(pre.transform.writes(
                            rest.take(size as int),
                            &self@.transform,
                            Ok(bytes),
                        ));
                    }
                },
            }
            at = at + size;
        }
        assert(encoded(self@, data@.skip(at as int), self@, None));
        Ok(())
    }

    /// Goes on with a write of `len` bytes after they have been buffered and a
    /// write to the object underneath.
    ///
    /// All the bytes have been taken, whatever part of the packets went out. The
    /// rest of the packets goes out with the next write, or when flushing. This holds
    /// too if the write has to wait: a caller that begins it again with the same
    /// bytes queues them a second time.
    pub fn write_after_write(&mut self, event: WriteEvent, len: usize) -> (step: WriteStep)
        ensures
            final(self)@ == after_event(old(self)@, event),
            step.wake == (event is Done && more_to_do(final(self)@)),
            step.action@ == (match event {
                WriteEvent::Pending => WriteActionView::Wait,
                WriteEvent::Done(_) => WriteActionView::Ready(len),
                WriteEvent::Failed => WriteActionView::IoError,
            }),
            old(self).framed() ==> final(self).framed(),
    {
        let wake = self.note_write(event);
        let action = match event {
            WriteEvent::Pending => WriteAction::Wait,
            WriteEvent::Done(_) => WriteAction::Ready(len),
            WriteEvent::Failed => WriteAction::IoError,
        };
        WriteStep { wake, action }
    }

    /// Goes on with a write after a read that was made to get on with the
    /// handshake. Unless that failed, the write is to be tried again.
    pub fn write_after_handshake(&self, event: HandshakeEvent) -> (step: WriteStep)
        ensures
            step.wake == !(event is Failed),
            step.action@ == (if event is Failed {
                WriteActionView::IoError
            } else {
                WriteActionView::Wait
            }),
    {
        match event {
            HandshakeEvent::Failed => WriteStep { wake: false, action: WriteAction::IoError },
            _ => WriteStep { wake: true, action: WriteAction::Wait },
        }
    }

    /// Begins a flush.
    pub fn begin_flush(&self) -> (step: FlushStep)
        ensures
            !step.wake,
            if self@.outgoing.len() == 0 {
                step.action is FlushIo
            } else {
                step.action matches FlushAction::Write(bytes) && bytes@ == joined(self@.outgoing)
            },
    {
        if self.write_packet_buf.len() == 0 {
            FlushStep { wake: false, action: FlushAction::FlushIo }
        } else {
            let bytes = big_write(&self.write_packet_buf);
            FlushStep { wake: false, action: FlushAction::Write(bytes) }
        }
    }

    /// Goes on with a flush after a write to the object underneath. It is flushed
    /// itself once all the packets are out.
    pub fn flush_after_write(&mut self, event: WriteEvent) -> (step: FlushStep)
        ensures
            final(self)@ == after_event(old(self)@, event),
            step.wake == (event is Done && more_to_do(final(self)@)),
            match event {
                WriteEvent::Pending => step.action is Wait,
                WriteEvent::Done(_) => if final(self)@.outgoing.len() == 0 {
                    step.action is FlushIo
                } else {
                    step.action is Wait
                },
                WriteEvent::Failed => step.action is IoError,
            },
            old(self).framed() ==> final(self).framed(),
    {
        let wake = self.note_write(event);
        let action = match event {
            WriteEvent::Pending => FlushAction::Wait,
            WriteEvent::Done(_) => if self.write_packet_buf.len() == 0 {
                FlushAction::FlushIo
            } else {
                FlushAction::Wait
            },
            WriteEvent::Failed => FlushAction::IoError,
        };
        FlushStep { wake, action }
    }

    /// Begins a shutdown: the object underneath is flushed first.
    pub fn begin_shutdown(&self) -> (action: ShutdownAction)
        ensures
            action == ShutdownAction::FlushIo,
    {
        ShutdownAction::FlushIo
    }

    /// Goes on with a shutdown after the object underneath has been flushed. It is
    /// shut down exactly when the flush is done; otherwise the shutdown waits, or
    /// fails, as the flush did. Packets that are queued stay queued.
    pub fn shutdown_after_flush(&self, event: FlushEvent) -> (action: ShutdownAction)
        ensures
            action == (match event {
                FlushEvent::Pending => ShutdownAction::Wait,
                FlushEvent::Done => ShutdownAction::ShutdownIo,
                FlushEvent::Failed => ShutdownAction::IoError,
            }),
    {
        match event {
            FlushEvent::Pending => ShutdownAction::Wait,
            FlushEvent::Done => ShutdownAction::ShutdownIo,
            FlushEvent::Failed => ShutdownAction::IoError,
        }
    }
}

} // verus!
