//! What a read comes to, case by case.
use crate::error::{PacketError, TransformError};
use crate::flow::{delivered, read_filled, Flow};
use crate::frame::{
    first_message, joined, law_drop_bytes_is_skip, law_first_message_stable, packets,
};
use crate::incoming::law_packets_are_framed;
use crate::packet::AsyncIoPacket;
use crate::step::{
    FillEvent, FlushEvent, HandshakeEvent, Phase, ReadAction, ReadActionView, ReadStep,
    ReadStepView, WriteEvent,
};
use crate::transform::PacketDataTransform;
use vstd::prelude::*;

verus! {

/// A layer starts out with its transform and nothing else.
pub proof fn law_a_layer_starts_empty<U: PacketDataTransform>(transform: U, p: AsyncIoPacket<U>)
    requires
        call_ensures(AsyncIoPacket::<U>::new, (transform,), p),
    ensures
        p@.transform == transform,
        p@.incoming.len() == 0,
        p@.remaining.len() == 0,
        p@.outgoing.len() == 0,
{
}

/// A read that has no handshake to open changes nothing when it begins. In the
/// handshake, all that is queued is to go out first; then the object underneath is to
/// be read.
pub proof fn law_a_read_begins<U: PacketDataTransform>(p: &mut AsyncIoPacket<U>, step: ReadStep)
    requires
        call_ensures(AsyncIoPacket::<U>::begin_read, (p,), step),
        !(old(p)@.transform.in_handshake() && old(p)@.transform.opens_handshake()),
    ensures
        final(p)@ == old(p)@,
        step.output@.len() == 0,
        !step.wake,
        old(p)@.transform.in_handshake() && old(p)@.outgoing.len() > 0 ==> (
        step.action matches ReadAction::Write(phase, bytes) && phase is Drain && bytes@ == joined(
            old(p)@.outgoing,
        )),
        !(old(p)@.transform.in_handshake() && old(p)@.outgoing.len() > 0) ==> step.action is Fill,
{
}

/// A read that has a handshake to open takes a step of it without a message, fetches
/// the handshake bytes, and asks for them to be written after all that is queued. It
/// fails as the transform does, and is not done.
pub proof fn law_a_read_opens_the_handshake<U: PacketDataTransform>(
    p: &mut AsyncIoPacket<U>,
    step: ReadStep,
)
    requires
        call_ensures(AsyncIoPacket::<U>::begin_read, (p,), step),
        old(p)@.transform.in_handshake(),
        old(p)@.transform.opens_handshake(),
    ensures
        step.output@.len() == 0,
        !(step.action is Ready) && !(step.action is Fill) && !(step.action is IoError),
        final(p)@.remaining == old(p)@.remaining,
        exists|t: U, r: Result<(), TransformError>| #[trigger]
            old(p)@.transform.steps(Seq::<u8>::empty(), &t, r) && match r {
                Err(e) => {
                    &&& step.action == ReadAction::Fail(PacketError::Handshake(e))
                    &&& !step.wake
                    &&& final(p)@.transform == t
                    &&& final(p)@.incoming == old(p)@.incoming
                    &&& final(p)@.outgoing == old(p)@.outgoing
                },
                Ok(_) => if t.intact() {
                    exists|t1: U, y: Result<Option<Seq<u8>>, TransformError>| #[trigger]
                        t.yields(&t1, y) && final(p)@.transform == t1 && final(p)@.incoming
                            == old(p)@.incoming && match y {
                            Err(e) => {
                                &&& step.action == ReadAction::Fail(PacketError::Handshake(e))
                                &&& !step.wake
                                &&& final(p)@.outgoing == old(p)@.outgoing
                            },
                            Ok(None) => {
                                &&& step.action is Wait
                                &&& step.wake
                                &&& final(p)@.outgoing == old(p)@.outgoing
                            },
                            Ok(Some(bytes)) => {
                                &&& final(p)@.outgoing == old(p)@.outgoing + packets(bytes, true)
                                &&& if final(p)@.outgoing.len() == 0 {
                                    step.action is Wait && step.wake
                                } else {
                                    &&& !step.wake
                                    &&& step.action matches ReadAction::Write(phase, out)
                                    &&& phase is KickOff
                                    &&& out@ == joined(final(p)@.outgoing)
                                }
                            },
                        }
                } else {
                    &&& step.action is Poisoned
                    &&& !step.wake
                    &&& final(p)@.transform == t
                    &&& final(p)@.incoming == old(p)@.incoming
                    &&& final(p)@.outgoing == old(p)@.outgoing
                },
            },
{
}

/// A read that has written packets to open the handshake or to answer it is never
/// done: unless the object underneath failed, it waits and is woken up.
pub proof fn law_handshake_bytes_end_no_read<U: PacketDataTransform>(
    p: &mut AsyncIoPacket<U>,
    phase: Phase,
    event: WriteEvent,
    step: ReadStep,
)
    requires
        call_ensures(AsyncIoPacket::<U>::read_after_write, (p, phase, event), step),
        phase is KickOff || phase is Reply,
        !(event is Failed),
    ensures
        step.action is Wait,
        step.wake,
        step.output@.len() == 0,
{
}

/// A read that gets rid of handshake packets goes on to do so as long as any are left,
/// with exactly those bytes, and then reads. It waits, and is woken up, if the object
/// underneath takes nothing.
pub proof fn law_a_read_drains_the_queue<U: PacketDataTransform>(
    p: &mut AsyncIoPacket<U>,
    event: WriteEvent,
    step: ReadStep,
)
    requires
        call_ensures(AsyncIoPacket::<U>::read_after_write, (p, Phase::Drain, event), step),
    ensures
        step.output@.len() == 0,
        event is Pending ==> step.action is Wait && step.wake,
        event is Done && final(p)@.outgoing.len() > 0 ==> step.wake && (
        step.action matches ReadAction::Write(phase, bytes) && phase is Drain && bytes@ == joined(
            final(p)@.outgoing,
        )),
        event is Done && final(p)@.outgoing.len() == 0 ==> step.action is Fill
            && step.wake == old(p)@.transform.in_handshake(),
{
}

/// A failure of the object underneath is the failure of the read, whatever was
/// written or read.
pub proof fn law_a_read_fails_with_its_object<U: PacketDataTransform>(
    p: &mut AsyncIoPacket<U>,
    phase: Phase,
    room: usize,
    step: ReadStep,
)
    requires
        call_ensures(AsyncIoPacket::<U>::read_after_write, (p, phase, WriteEvent::Failed), step)
            || call_ensures(
            AsyncIoPacket::<U>::read_after_fill,
            (p, FillEvent::Failed, room),
            step,
        ),
    ensures
        step.action is IoError,
        !step.wake,
        step.output@.len() == 0,
        final(p)@ == old(p)@,
{
}

/// A write in the course of a read takes the written bytes off the queue, and does
/// nothing else to the layer.
pub proof fn law_a_read_forgets_what_was_written<U: PacketDataTransform>(
    p: &mut AsyncIoPacket<U>,
    phase: Phase,
    event: WriteEvent,
    step: ReadStep,
)
    requires
        call_ensures(AsyncIoPacket::<U>::read_after_write, (p, phase, event), step),
    ensures
        final(p)@.transform == old(p)@.transform,
        final(p)@.incoming == old(p)@.incoming,
        final(p)@.remaining == old(p)@.remaining,
        !(event is Done) ==> final(p)@.outgoing == old(p)@.outgoing,
        event matches WriteEvent::Done(n) ==> n <= joined(old(p)@.outgoing).len() ==> joined(
            final(p)@.outgoing,
        ) == joined(old(p)@.outgoing).skip(n as int),
        event matches WriteEvent::Done(n) ==> n >= joined(old(p)@.outgoing).len()
            ==> final(p)@.outgoing.len() == 0,
{
    if let WriteEvent::Done(n) = event {
        law_drop_bytes_is_skip(old(p)@.outgoing, n as nat);
    }
}

/// A reader with less room than there is left over gets as much of that as it has room
/// for, and nothing else happens but that what arrived is kept.
pub proof fn law_left_over_bytes_come_first<U: PacketDataTransform>(
    p: &mut AsyncIoPacket<U>,
    event: FillEvent,
    filled: Seq<u8>,
    room: usize,
    step: ReadStep,
)
    requires
        call_ensures(AsyncIoPacket::<U>::read_after_fill, (p, event, room), step),
        event matches FillEvent::Filled(bytes) ==> filled == bytes@,
        event is Pending ==> filled.len() == 0,
        !(event is Failed),
        old(p)@.remaining.len() > room,
    ensures
        step.action is Ready,
        !step.wake,
        step.output@.len() == room,
        step.output@ + final(p)@.remaining == old(p)@.remaining,
        final(p)@.incoming == old(p)@.incoming + filled,
        final(p)@.transform == old(p)@.transform,
        final(p)@.outgoing == old(p)@.outgoing,
{
    assert(event is Pending ==> filled =~= seq![]);
    assert(step.output@ + final(p)@.remaining =~= old(p)@.remaining);
}

/// Without a message that has fully arrived, a reader with room gets what is left over
/// and what arrived is kept. The read is done if there was anything; otherwise it
/// waits, and is woken up if there is handshaking to do or anything was received.
pub proof fn law_no_message_no_data<U: PacketDataTransform>(
    p: &mut AsyncIoPacket<U>,
    event: FillEvent,
    filled: Seq<u8>,
    room: usize,
    step: ReadStep,
)
    requires
        call_ensures(AsyncIoPacket::<U>::read_after_fill, (p, event, room), step),
        event matches FillEvent::Filled(bytes) ==> filled == bytes@,
        event is Pending ==> filled.len() == 0,
        !(event is Failed),
        old(p)@.remaining.len() <= room,
        first_message(old(p)@.incoming + filled) is None,
    ensures
        step.output@ == old(p)@.remaining,
        old(p)@.remaining.len() > 0 ==> step.action is Ready && !step.wake,
        old(p)@.remaining.len() == 0 ==> step.action is Wait && (step.wake
            <==> old(p)@.transform.in_handshake() || old(p)@.incoming.len() + filled.len() > 0),
        final(p)@.incoming == old(p)@.incoming + filled,
        final(p)@.remaining.len() == 0,
        final(p)@.transform == old(p)@.transform,
        final(p)@.outgoing == old(p)@.outgoing,
{
    assert(event is Pending ==> filled =~= seq![]);
}

/// In the handshake, a message of which any packet is not marked as a handshake packet
/// fails the read, and stays.
pub proof fn law_unmarked_packet_fails_the_handshake<U: PacketDataTransform>(
    p: &mut AsyncIoPacket<U>,
    event: FillEvent,
    filled: Seq<u8>,
    room: usize,
    step: ReadStep,
    i: int,
)
    requires
        call_ensures(AsyncIoPacket::<U>::read_after_fill, (p, event, room), step),
        event matches FillEvent::Filled(bytes) ==> filled == bytes@,
        event is Pending ==> filled.len() == 0,
        !(event is Failed),
        old(p)@.remaining.len() <= room,
        old(p)@.transform.in_handshake(),
        first_message(old(p)@.incoming + filled) matches Some(m) && 0 <= i < m.marks.len()
            && !m.marks[i],
    ensures
        step.action == ReadAction::Fail(PacketError::DataInHandshake),
        !step.wake,
        step.output@ == old(p)@.remaining,
        final(p)@.incoming == old(p)@.incoming + filled,
        final(p)@.remaining.len() == 0,
        final(p)@.transform == old(p)@.transform,
        final(p)@.outgoing == old(p)@.outgoing,
{
    assert(event is Pending ==> filled =~= seq![]);
}

/// In the handshake, a message of handshake packets is given to the transform whole.
/// If it is taken it is dropped, and the handshake bytes are fetched and are to be
/// written after all that is queued. The read fails as the transform does, and is not
/// done.
pub proof fn law_handshake_message_is_answered<U: PacketDataTransform>(
    p: &mut AsyncIoPacket<U>,
    event: FillEvent,
    filled: Seq<u8>,
    room: usize,
    step: ReadStep,
)
    requires
        call_ensures(AsyncIoPacket::<U>::read_after_fill, (p, event, room), step),
        event matches FillEvent::Filled(bytes) ==> filled == bytes@,
        event is Pending ==> filled.len() == 0,
        !(event is Failed),
        old(p)@.remaining.len() <= room,
        old(p)@.transform.in_handshake(),
        first_message(old(p)@.incoming + filled) matches Some(m) && forall|i: int|
            0 <= i < m.marks.len() ==> m.marks[i],
    ensures
        step.output@ == old(p)@.remaining,
        !(step.action is Ready) && !(step.action is Fill) && !(step.action is IoError),
        final(p)@.remaining.len() == 0,
        exists|t: U, r: Result<(), TransformError>| #[trigger]
            old(p)@.transform.steps(
                first_message(old(p)@.incoming + filled)->0.data,
                &t,
                r,
            ) && match r {
                Err(e) => {
                    &&& step.action == ReadAction::Fail(PacketError::Handshake(e))
                    &&& !step.wake
                    &&& final(p)@.transform == t
                    &&& final(p)@.incoming == old(p)@.incoming + filled
                    &&& final(p)@.outgoing == old(p)@.outgoing
                },
                Ok(_) => if t.intact() {
                    exists|t1: U, y: Result<Option<Seq<u8>>, TransformError>| #[trigger]
                        t.yields(&t1, y) && final(p)@.transform == t1 && final(p)@.incoming
                            == (old(p)@.incoming + filled).skip(
                        first_message(old(p)@.incoming + filled)->0.size as int,
                    ) && match y {
                            Err(e) => {
                                &&& step.action == ReadAction::Fail(PacketError::Handshake(e))
                                &&& !step.wake
                                &&& final(p)@.outgoing == old(p)@.outgoing
                            },
                            Ok(None) => {
                                &&& step.action is Wait
                                &&& step.wake
                                &&& final(p)@.outgoing == old(p)@.outgoing
                            },
                            Ok(Some(bytes)) => {
                                &&& final(p)@.outgoing == old(p)@.outgoing + packets(bytes, true)
                                &&& if final(p)@.outgoing.len() == 0 {
                                    step.action is Wait && step.wake
                                } else {
                                    &&& !step.wake
                                    &&& step.action matches ReadAction::Write(phase, out)
                                    &&& phase is Reply
                                    &&& out@ == joined(final(p)@.outgoing)
                                }
                            },
                        }
                } else {
                    &&& step.action is Poisoned
                    &&& !step.wake
                    &&& final(p)@.transform == t
                    &&& final(p)@.incoming == (old(p)@.incoming + filled).skip(
                        first_message(old(p)@.incoming + filled)->0.size as int,
                    )
                    &&& final(p)@.outgoing == old(p)@.outgoing
                },
            },
{
    assert(event is Pending ==> filled =~= seq![]);
    let m = first_message(old(p)@.incoming + filled)->0;
    assert(m.all_handshake());
}

/// After the handshake, a message of which any packet is marked as a handshake packet
/// fails the read, and stays.
pub proof fn law_marked_packet_fails_the_read<U: PacketDataTransform>(
    p: &mut AsyncIoPacket<U>,
    event: FillEvent,
    filled: Seq<u8>,
    room: usize,
    step: ReadStep,
    i: int,
)
    requires
        call_ensures(AsyncIoPacket::<U>::read_after_fill, (p, event, room), step),
        event matches FillEvent::Filled(bytes) ==> filled == bytes@,
        event is Pending ==> filled.len() == 0,
        !(event is Failed),
        old(p)@.remaining.len() <= room,
        !old(p)@.transform.in_handshake(),
        first_message(old(p)@.incoming + filled) matches Some(m) && 0 <= i < m.marks.len()
            && m.marks[i],
    ensures
        step.action == ReadAction::Fail(PacketError::HandshakeInData),
        !step.wake,
        step.output@ == old(p)@.remaining,
        final(p)@.incoming == old(p)@.incoming + filled,
        final(p)@.remaining.len() == 0,
        final(p)@.transform == old(p)@.transform,
        final(p)@.outgoing == old(p)@.outgoing,
{
    assert(event is Pending ==> filled =~= seq![]);
}

/// After the handshake, a transform beyond use is noticed with the next message, which
/// stays.
pub proof fn law_no_reading_beyond_use<U: PacketDataTransform>(
    p: &mut AsyncIoPacket<U>,
    event: FillEvent,
    filled: Seq<u8>,
    room: usize,
    step: ReadStep,
)
    requires
        call_ensures(AsyncIoPacket::<U>::read_after_fill, (p, event, room), step),
        event matches FillEvent::Filled(bytes) ==> filled == bytes@,
        event is Pending ==> filled.len() == 0,
        !(event is Failed),
        old(p)@.remaining.len() <= room,
        !old(p)@.transform.in_handshake(),
        !old(p)@.transform.intact(),
        first_message(old(p)@.incoming + filled) matches Some(m) && forall|i: int|
            0 <= i < m.marks.len() ==> !m.marks[i],
    ensures
        step.action is Poisoned,
        !step.wake,
        step.output@ == old(p)@.remaining,
        final(p)@.incoming == old(p)@.incoming + filled,
        final(p)@.remaining.len() == 0,
        final(p)@.transform == old(p)@.transform,
        final(p)@.outgoing == old(p)@.outgoing,
{
    assert(event is Pending ==> filled =~= seq![]);
}

/// A message that the transform refuses fails the read, with the reason that the
/// transform gave: such a read is neither done nor waiting. The message stays.
pub proof fn law_refused_message_is_reported<U: PacketDataTransform>(
    p: &mut AsyncIoPacket<U>,
    event: FillEvent,
    filled: Seq<u8>,
    room: usize,
    step: ReadStep,
)
    requires
        call_ensures(AsyncIoPacket::<U>::read_after_fill, (p, event, room), step),
        event matches FillEvent::Filled(bytes) ==> filled == bytes@,
        event is Pending ==> filled.len() == 0,
        !(event is Failed),
        old(p)@.remaining.len() <= room,
        !old(p)@.transform.in_handshake(),
        old(p)@.transform.intact(),
        first_message(old(p)@.incoming + filled) matches Some(m) && (forall|i: int|
            0 <= i < m.marks.len() ==> !m.marks[i]) && (forall|
            t: U,
            r: Result<Seq<u8>, TransformError>,
        | #[trigger]
            old(p)@.transform.reads(m.data, &t, r) ==> r is Err),
    ensures
        step.action matches ReadAction::Fail(PacketError::Payload(e)) && old(p)@.transform.reads(
            first_message(old(p)@.incoming + filled)->0.data,
            &final(p)@.transform,
            Err(e),
        ),
        !(step.action is Ready) && !(step.action is Wait),
        !step.wake,
        step.output@ == old(p)@.remaining,
        final(p)@.incoming == old(p)@.incoming + filled,
        final(p)@.remaining.len() == 0,
        final(p)@.outgoing == old(p)@.outgoing,
{
    assert(event is Pending ==> filled =~= seq![]);
}

/// What delivery does does not depend on what was handed out before it.
proof fn lemma_output_so_far<U: PacketDataTransform>(
    pre: Flow<U>,
    out: Seq<u8>,
    room: nat,
    wrote: bool,
    post: Flow<U>,
    step: ReadStepView,
    other: Seq<u8>,
    other_wrote: bool,
) -> (x: Seq<u8>)
    requires
        delivered(pre, out, room, wrote, post, step),
        first_message(pre.incoming) is Some || wrote == other_wrote,
    ensures
        step.output == out + x,
        delivered(
            pre,
            other,
            room,
            other_wrote,
            post,
            ReadStepView { output: other + x, ..step },
        ),
    decreases pre.incoming.len(),
{
    let none = Seq::<u8>::empty();
    assert(out + none =~= out);
    assert(other + none =~= other);
    let same = ReadStepView { output: other + none, ..step };
    if first_message(pre.incoming) is None {
        none
    } else {
        let m = first_message(pre.incoming)->0;
        law_first_message_stable(pre.incoming, none);
        let rest = pre.incoming.skip(m.size as int);
        if pre.transform.in_handshake() || m.any_handshake() || !pre.transform.intact() {
            none
        } else {
            let (t, r) = choose|t: U, r: Result<Seq<u8>, TransformError>| #[trigger]
                pre.transform.reads(m.data, &t, r) && match r {
                    Err(e) => {
                        &&& post == Flow { transform: t, ..pre }
                        &&& step == ReadStepView {
                            output: out,
                            wake: false,
                            action: ReadActionView::Fail(PacketError::Payload(e)),
                        }
                    },
                    Ok(payload) => if payload.len() > room {
                        &&& post == Flow {
                            transform: t,
                            incoming: rest,
                            remaining: pre.remaining + payload.skip(room as int),
                            ..pre
                        }
                        &&& step == ReadStepView {
                            output: out + payload.take(room as int),
                            wake: false,
                            action: ReadActionView::Ready,
                        }
                    } else {
                        delivered(
                            Flow { transform: t, incoming: rest, ..pre },
                            out + payload,
                            (room - payload.len()) as nat,
                            true,
                            post,
                            step,
                        )
                    },
                };
            match r {
                Err(e) => none,
                Ok(payload) => if payload.len() > room {
                    payload.take(room as int)
                } else {
                    let y = lemma_output_so_far(
                        Flow { transform: t, incoming: rest, ..pre },
                        out + payload,
                        (room - payload.len()) as nat,
                        true,
                        post,
                        step,
                        other + payload,
                        true,
                    );
                    assert(out + payload + y =~= out + (payload + y));
                    assert(other + payload + y =~= other + (payload + y));
                    payload + y
                },
            }
        }
    }
}

/// After the handshake, the first message is read by the transform whole. If it is
/// refused the read fails. If there is room for its payload, the reader gets that
/// after what is left over, and the read goes on as one that begins without the
/// message, with the transform and the room as they are then; otherwise the reader
/// gets what it has room for, the rest is left over, and the read is done.
pub proof fn law_messages_are_read_one_by_one<U: PacketDataTransform>(
    p: &mut AsyncIoPacket<U>,
    event: FillEvent,
    filled: Seq<u8>,
    room: usize,
    step: ReadStep,
)
    requires
        call_ensures(AsyncIoPacket::<U>::read_after_fill, (p, event, room), step),
        event matches FillEvent::Filled(bytes) ==> filled == bytes@,
        event is Pending ==> filled.len() == 0,
        !(event is Failed),
        old(p)@.remaining.len() <= room,
        !old(p)@.transform.in_handshake(),
        old(p)@.transform.intact(),
        first_message(old(p)@.incoming + filled) matches Some(m) && forall|i: int|
            0 <= i < m.marks.len() ==> !m.marks[i],
    ensures
        ({
            let bytes = old(p)@.incoming + filled;
            let m = first_message(bytes)->0;
            let rest = bytes.skip(m.size as int);
            let left = room - old(p)@.remaining.len();
            exists|t: U, r: Result<Seq<u8>, TransformError>| #[trigger]
                old(p)@.transform.reads(m.data, &t, r) && match r {
                    Err(e) => {
                        &&& step.action == ReadAction::Fail(PacketError::Payload(e))
                        &&& !step.wake
                        &&& step.output@ == old(p)@.remaining
                        &&& final(p)@.transform == t
                        &&& final(p)@.incoming == bytes
                        &&& final(p)@.remaining.len() == 0
                    },
                    Ok(payload) => if payload.len() > left {
                        &&& step.action is Ready
                        &&& !step.wake
                        &&& step.output@ == old(p)@.remaining + payload.take(left)
                        &&& final(p)@.transform == t
                        &&& final(p)@.incoming == rest
                        &&& final(p)@.remaining == payload.skip(left)
                    } else {
                        exists|next: ReadStepView| #[trigger]
                            read_filled(
                                Flow {
                                    transform: t,
                                    incoming: rest,
                                    remaining: seq![],
                                    outgoing: old(p)@.outgoing,
                                },
                                seq![],
                                (left - payload.len()) as nat,
                                final(p)@,
                                next,
                            ) && step.output@ == old(p)@.remaining + payload + next.output && if (
                            first_message(rest) is None) {
                                step.action is Ready && !step.wake
                            } else {
                                step.action@ == next.action && step.wake == next.wake
                            }
                    },
                }
        }),
{
    assert(event is Pending ==> filled =~= seq![]);
    let none = Seq::<u8>::empty();
    let bytes = old(p)@.incoming + filled;
    let m = first_message(bytes)->0;
    let rest = bytes.skip(m.size as int);
    let left = (room - old(p)@.remaining.len()) as nat;
    let pre = Flow { incoming: bytes, remaining: none, ..old(p)@ };
    let out = old(p)@.remaining;
    let post = final(p)@;
    assert(!m.any_handshake());
    assert(delivered(pre, out, left, out.len() > 0, post, step@));
    let (t, r) = choose|t: U, r: Result<Seq<u8>, TransformError>| #[trigger]
        pre.transform.reads(m.data, &t, r) && match r {
            Err(e) => {
                &&& post == Flow { transform: t, ..pre }
                &&& step@ == ReadStepView {
                    output: out,
                    wake: false,
                    action: ReadActionView::Fail(PacketError::Payload(e)),
                }
            },
            Ok(payload) => if payload.len() > left {
                &&& post == Flow {
                    transform: t,
                    incoming: rest,
                    remaining: pre.remaining + payload.skip(left as int),
                    ..pre
                }
                &&& step@ == ReadStepView {
                    output: out + payload.take(left as int),
                    wake: false,
                    action: ReadActionView::Ready,
                }
            } else {
                delivered(
                    Flow { transform: t, incoming: rest, ..pre },
                    out + payload,
                    (left - payload.len()) as nat,
                    true,
                    post,
                    step@,
                )
            },
        };
    assert(old(p)@.transform.reads(m.data, &t, r));
    if let Ok(payload) = r {
        let room1 = (left - payload.len()) as nat;
        let mid = Flow { transform: t, incoming: rest, ..pre };
        if payload.len() > left {
            assert(none + payload.skip(left as int) =~= payload.skip(left as int));
        } else if first_message(rest) is None {
            let next = ReadStepView {
                output: none,
                wake: t.in_handshake() || rest.len() > 0,
                action: ReadActionView::Wait,
            };
            assert(rest + none =~= rest);
            assert(delivered(mid, none, room1, false, post, next));
            assert(read_filled(mid, none, room1, post, next));
            assert(out + payload + none =~= out + payload);
        } else {
            let x = lemma_output_so_far(
                mid,
                out + payload,
                room1,
                true,
                post,
                step@,
                none,
                false,
            );
            let next = ReadStepView { output: none + x, ..step@ };
            assert(none + x =~= x);
            assert(rest + none =~= rest);
            assert(read_filled(mid, none, room1, post, next));
        }
    }
}

/// The packets that a layer keeps are those that arrived, each of the length that its
/// header states but for the last, which is no longer. It is so from the start, and what
/// arrives keeps it so.
pub proof fn law_layers_are_framed<U: PacketDataTransform>(
    transform: U,
    fresh: AsyncIoPacket<U>,
    p: &mut AsyncIoPacket<U>,
    event: FillEvent,
    room: usize,
    step: ReadStep,
    i: int,
)
    requires
        call_ensures(AsyncIoPacket::<U>::new, (transform,), fresh),
        call_ensures(AsyncIoPacket::<U>::read_after_fill, (p, event, room), step),
        old(p).framed(),
    ensures
        fresh.framed(),
        final(p).framed(),
        ({
            let kept = final(p).read_packets();
            &&& joined(kept) == final(p)@.incoming
            &&& 0 <= i < kept.len() - 1 ==> kept[i].len() >= 3 && kept[i].len() == 3 + 256
                * kept[i][0] + kept[i][1]
            &&& 0 <= i < kept.len() ==> 0 < kept[i].len() && (kept[i].len() < 3 || kept[i].len()
                <= 3 + 256 * kept[i][0] + kept[i][1])
        }),
{
    let kept = final(p).read_packets();
    if 0 <= i < kept.len() {
        law_packets_are_framed(kept, i);
    }
}

/// Nothing is asked of a caller: a layer can be read, written, flushed and shut down in
/// any state, whatever the object underneath did.
pub proof fn law_layers_take_any_event<U: PacketDataTransform>(
    transform: U,
    p: &mut AsyncIoPacket<U>,
    q: &AsyncIoPacket<U>,
    phase: Phase,
    written: WriteEvent,
    filled: FillEvent,
    driven: HandshakeEvent,
    flushed: FlushEvent,
    room: usize,
    buf: &[u8],
    data: Vec<u8>,
    handshake: bool,
)
    ensures
        call_requires(AsyncIoPacket::<U>::new, (transform,)),
        call_requires(AsyncIoPacket::<U>::begin_read, (p,)),
        call_requires(AsyncIoPacket::<U>::read_after_write, (p, phase, written)),
        call_requires(AsyncIoPacket::<U>::read_after_fill, (p, filled, room)),
        call_requires(AsyncIoPacket::<U>::begin_write, (p, buf)),
        call_requires(AsyncIoPacket::<U>::write_after_write, (p, written, room)),
        call_requires(AsyncIoPacket::<U>::write_after_handshake, (q, driven)),
        call_requires(AsyncIoPacket::<U>::begin_flush, (q,)),
        call_requires(AsyncIoPacket::<U>::flush_after_write, (p, written)),
        call_requires(AsyncIoPacket::<U>::begin_shutdown, (q,)),
        call_requires(AsyncIoPacket::<U>::shutdown_after_flush, (q, flushed)),
        call_requires(
            AsyncIoPacket::<U>::make_write_packets_from_data,
            (p, data, handshake),
        ),
{
}

} // verus!
