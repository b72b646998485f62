//! What a write, a flush and a shutdown come to, case by case.
use crate::delivery::{law_read_gets_all, law_sent_is_on_the_wire, law_write_is_owed, Link};
use crate::error::{PacketError, TransformError};
use crate::flow::{chunk_len, encoded, write_begun, Flow, Refusal};
use crate::frame::{joined, law_drop_bytes_is_skip, packets};
use crate::packet::AsyncIoPacket;
use crate::step::{
    FillEvent, FlushAction, FlushEvent, FlushStep, HandshakeEvent, ReadStep, ShutdownAction,
    WriteAction, WriteActionView, WriteEvent, WriteStep,
};
use crate::transform::PacketDataTransform;
use vstd::prelude::*;

verus! {

/// A write in the handshake changes nothing, and asks for the handshake to be driven. A
/// write of nothing changes nothing, and is done.
pub proof fn law_a_write_of_nothing<U: PacketDataTransform>(
    p: &mut AsyncIoPacket<U>,
    buf: &[u8],
    step: WriteStep,
)
    requires
        call_ensures(AsyncIoPacket::<U>::begin_write, (p, buf), step),
        old(p)@.transform.in_handshake() || buf@.len() == 0,
    ensures
        final(p)@ == old(p)@,
        !step.wake,
        old(p)@.transform.in_handshake() ==> step.action is Handshake,
        !old(p)@.transform.in_handshake() ==> step.action == WriteAction::Ready(0),
{
}

/// Whatever a write asks to be written to the object underneath is all the bytes of
/// the queue, in order. A write that is done at once has taken all its bytes and left
/// nothing in the queue. What was received is not touched.
pub proof fn law_a_write_pushes_the_whole_queue<U: PacketDataTransform>(
    p: &mut AsyncIoPacket<U>,
    buf: &[u8],
    step: WriteStep,
)
    requires
        call_ensures(AsyncIoPacket::<U>::begin_write, (p, buf), step),
    ensures
        step.action matches WriteAction::Write(bytes) ==> bytes@ == joined(final(p)@.outgoing)
            && final(p)@.outgoing.len() > 0,
        step.action matches WriteAction::Ready(n) ==> n == buf@.len() && (buf@.len() > 0
            ==> final(p)@.outgoing.len() == 0),
        !(step.action is Wait) && !(step.action is IoError),
        step.action is Handshake ==> old(p)@.transform.in_handshake(),
        step.action matches WriteAction::Fail(e) ==> e is Message,
        !step.wake,
        final(p)@.incoming == old(p)@.incoming,
        final(p)@.remaining == old(p)@.remaining,
{
    if !old(p)@.transform.in_handshake() && buf@.len() > 0 {
        match step.action@ {
            WriteActionView::Poisoned => lemma_encoded_keeps(
                old(p)@,
                buf@,
                final(p)@,
                Some(Refusal::Poisoned),
            ),
            WriteActionView::Fail(PacketError::Message(e)) => lemma_encoded_keeps(
                old(p)@,
                buf@,
                final(p)@,
                Some(Refusal::Refused(e)),
            ),
            _ => lemma_encoded_keeps(old(p)@, buf@, final(p)@, None),
        }
    }
}

/// Encoding leaves alone what was received.
proof fn lemma_encoded_keeps<U: PacketDataTransform>(
    pre: Flow<U>,
    data: Seq<u8>,
    post: Flow<U>,
    refusal: Option<Refusal>,
)
    requires
        encoded(pre, data, post, refusal),
    ensures
        post.incoming == pre.incoming,
        post.remaining == pre.remaining,
    decreases data.len(),
{
    if data.len() > 0 && pre.transform.intact() {
        let n = chunk_len(pre.transform, data);
        let (t, r) = choose|t: U, r: Result<Seq<u8>, TransformError>| #[trigger]
            pre.transform.writes(data.take(n as int), &t, r) && match r {
                Err(e) => {
                    &&& post == Flow { transform: t, ..pre }
                    &&& refusal == Some(Refusal::Refused(e))
                },
                Ok(msg) => encoded(
                    Flow { transform: t, outgoing: pre.outgoing + packets(msg, false), ..pre },
                    data.skip(n as int),
                    post,
                    refusal,
                ),
            };
        if let Ok(msg) = r {
            lemma_encoded_keeps(
                Flow { transform: t, outgoing: pre.outgoing + packets(msg, false), ..pre },
                data.skip(n as int),
                post,
                refusal,
            );
        }
    }
}

/// A transform beyond use is noticed by the next write, which changes nothing.
pub proof fn law_no_writing_beyond_use<U: PacketDataTransform>(
    p: &mut AsyncIoPacket<U>,
    buf: &[u8],
    step: WriteStep,
)
    requires
        call_ensures(AsyncIoPacket::<U>::begin_write, (p, buf), step),
        !old(p)@.transform.in_handshake(),
        !old(p)@.transform.intact(),
        buf@.len() > 0,
    ensures
        step.action is Poisoned,
        final(p)@ == old(p)@,
{
}

/// A write that fits the limit of the transform becomes one message, in packets that
/// are not marked, at the end of the queue. If the transform refuses it, the write
/// fails with the reason that the transform gave, and nothing is queued.
pub proof fn law_a_write_becomes_a_message<U: PacketDataTransform>(
    p: &mut AsyncIoPacket<U>,
    buf: &[u8],
    step: WriteStep,
)
    requires
        call_ensures(AsyncIoPacket::<U>::begin_write, (p, buf), step),
        !old(p)@.transform.in_handshake(),
        old(p)@.transform.intact(),
        buf@.len() > 0,
        old(p)@.transform.payload_limit() matches Some(limit) ==> buf@.len() <= limit,
    ensures
        exists|r: Result<Seq<u8>, TransformError>| #[trigger]
            old(p)@.transform.writes(buf@, &final(p)@.transform, r) && match r {
                Err(e) => {
                    &&& step.action == WriteAction::Fail(PacketError::Message(e))
                    &&& final(p)@.outgoing == old(p)@.outgoing
                },
                Ok(msg) => {
                    &&& step.action is Write || step.action is Ready
                    &&& final(p)@.outgoing == old(p)@.outgoing + packets(msg, false)
                },
            },
{
    let pre = old(p)@;
    let post = final(p)@;
    let none = Seq::<u8>::empty();
    let refusal = match step.action@ {
        WriteActionView::Poisoned => Some(Refusal::Poisoned),
        WriteActionView::Fail(PacketError::Message(e)) => Some(Refusal::Refused(e)),
        _ => None,
    };
    assert(encoded(pre, buf@, post, refusal));
    assert(buf@.take(buf@.len() as int) =~= buf@);
    assert(buf@.skip(buf@.len() as int) =~= none);
    assert(chunk_len(pre.transform, buf@) == buf@.len());
    let (t, r) = choose|t: U, r: Result<Seq<u8>, TransformError>| #[trigger]
        pre.transform.writes(buf@, &t, r) && match r {
            Err(e) => {
                &&& post == Flow { transform: t, ..pre }
                &&& refusal == Some(Refusal::Refused(e))
            },
            Ok(msg) => encoded(
                Flow { transform: t, outgoing: pre.outgoing + packets(msg, false), ..pre },
                none,
                post,
                refusal,
            ),
        };
    assert(post.transform == t);
    assert(pre.transform.writes(buf@, &post.transform, r));
}

/// A write of more than the limit of the transform is like a write of as much as the
/// limit and then, unless that is refused, a write of the rest.
pub proof fn law_a_long_write_is_two_writes<U: PacketDataTransform>(
    p: &mut AsyncIoPacket<U>,
    buf: &[u8],
    step: WriteStep,
    limit: usize,
)
    requires
        call_ensures(AsyncIoPacket::<U>::begin_write, (p, buf), step),
        !old(p)@.transform.in_handshake(),
        old(p)@.transform.intact(),
        old(p)@.transform.payload_limit() == Some(limit),
        0 < limit < buf@.len(),
    ensures
        exists|t: U, r: Result<Seq<u8>, TransformError>| #[trigger]
            old(p)@.transform.writes(buf@.take(limit as int), &t, r) && match r {
                Err(e) => {
                    &&& step.action == WriteAction::Fail(PacketError::Message(e))
                    &&& final(p)@.transform == t
                    &&& final(p)@.outgoing == old(p)@.outgoing
                },
                Ok(msg) => t.in_handshake() || exists|rest: WriteActionView| #[trigger]
                    write_begun(
                        Flow {
                            transform: t,
                            incoming: old(p)@.incoming,
                            remaining: old(p)@.remaining,
                            outgoing: old(p)@.outgoing + packets(msg, false),
                        },
                        buf@.skip(limit as int),
                        final(p)@,
                        false,
                        rest,
                    ) && if rest is Ready {
                        step.action is Ready
                    } else {
                        step.action@ == rest
                    },
            },
{
    let pre = old(p)@;
    let post = final(p)@;
    let refusal = match step.action@ {
        WriteActionView::Poisoned => Some(Refusal::Poisoned),
        WriteActionView::Fail(PacketError::Message(e)) => Some(Refusal::Refused(e)),
        _ => None,
    };
    assert(encoded(pre, buf@, post, refusal));
    assert(chunk_len(pre.transform, buf@) == limit);
    let rest = buf@.skip(limit as int);
    let (t, r) = choose|t: U, r: Result<Seq<u8>, TransformError>| #[trigger]
        pre.transform.writes(buf@.take(limit as int), &t, r) && match r {
            Err(e) => {
                &&& post == Flow { transform: t, ..pre }
                &&& refusal == Some(Refusal::Refused(e))
            },
            Ok(msg) => encoded(
                Flow { transform: t, outgoing: pre.outgoing + packets(msg, false), ..pre },
                rest,
                post,
                refusal,
            ),
        };
    assert(pre.transform.writes(buf@.take(limit as int), &t, r));
    if let Ok(msg) = r {
        let mid = Flow { transform: t, outgoing: pre.outgoing + packets(msg, false), ..pre };
        let action = match step.action@ {
            WriteActionView::Ready(n) => WriteActionView::Ready((n - limit) as usize),
            other => other,
        };
        if !t.in_handshake() {
            assert(write_begun(mid, rest, post, false, action));
        }
    }
}

/// A write whose bytes were queued is done once the object underneath has taken any
/// part of the packets, and has taken all its bytes; it waits or fails as the object
/// does.
pub proof fn law_a_write_ends<U: PacketDataTransform>(
    p: &mut AsyncIoPacket<U>,
    event: WriteEvent,
    len: usize,
    step: WriteStep,
)
    requires
        call_ensures(AsyncIoPacket::<U>::write_after_write, (p, event, len), step),
    ensures
        event is Pending ==> step.action is Wait,
        event is Failed ==> step.action is IoError,
        event is Done ==> step.action == WriteAction::Ready(len),
        step.wake <==> event is Done && (final(p)@.transform.in_handshake()
            || final(p)@.outgoing.len() > 0),
{
}

/// A write that drove the handshake is to be tried again, unless that failed.
pub proof fn law_a_write_waits_for_the_handshake<U: PacketDataTransform>(
    p: &AsyncIoPacket<U>,
    event: HandshakeEvent,
    step: WriteStep,
)
    requires
        call_ensures(AsyncIoPacket::<U>::write_after_handshake, (p, event), step),
    ensures
        event is Failed ==> step.action is IoError && !step.wake,
        !(event is Failed) ==> step.action is Wait && step.wake,
{
}

/// A write to the object underneath takes the written bytes off the queue, and does
/// nothing else to the layer, whether it was for a write or for a flush.
pub proof fn law_written_bytes_are_forgotten<U: PacketDataTransform>(
    p: &mut AsyncIoPacket<U>,
    event: WriteEvent,
    len: usize,
    write_step: WriteStep,
    flush_step: FlushStep,
)
    requires
        call_ensures(AsyncIoPacket::<U>::write_after_write, (p, event, len), write_step)
            || call_ensures(AsyncIoPacket::<U>::flush_after_write, (p, event), flush_step),
    ensures
        final(p)@.transform == old(p)@.transform,
        final(p)@.incoming == old(p)@.incoming,
        final(p)@.remaining == old(p)@.remaining,
        !(event is Done) ==> final(p)@.outgoing == old(p)@.outgoing,
        event matches WriteEvent::Done(n) ==> n <= joined(old(p)@.outgoing).len() ==> joined(
            final(p)@.outgoing,
        ) == joined(old(p)@.outgoing).skip(n as int),
        event matches WriteEvent::Done(n) ==> n >= joined(old(p)@.outgoing).len()
            ==> final(p)@.outgoing.len() == 0,
{
    if let WriteEvent::Done(n) = event {
        law_drop_bytes_is_skip(old(p)@.outgoing, n as nat);
    }
}

/// A flush writes all that is queued, and then flushes the object underneath.
pub proof fn law_a_flush_begins<U: PacketDataTransform>(p: &AsyncIoPacket<U>, step: FlushStep)
    requires
        call_ensures(AsyncIoPacket::<U>::begin_flush, (p,), step),
    ensures
        !step.wake,
        p@.outgoing.len() == 0 ==> step.action is FlushIo,
        p@.outgoing.len() > 0 ==> (step.action matches FlushAction::Write(bytes) && bytes@
            == joined(p@.outgoing)),
{
}

/// A flush goes on to the object underneath exactly when nothing is left in the queue;
/// otherwise it waits, and is woken up, or waits or fails as the object does.
pub proof fn law_a_flush_ends<U: PacketDataTransform>(
    p: &mut AsyncIoPacket<U>,
    event: WriteEvent,
    step: FlushStep,
)
    requires
        call_ensures(AsyncIoPacket::<U>::flush_after_write, (p, event), step),
    ensures
        event is Pending ==> step.action is Wait,
        event is Failed ==> step.action is IoError,
        event is Done && final(p)@.outgoing.len() == 0 ==> step.action is FlushIo,
        event is Done && final(p)@.outgoing.len() > 0 ==> step.action is Wait,
        step.wake <==> event is Done && (final(p)@.transform.in_handshake()
            || final(p)@.outgoing.len() > 0),
{
}

/// A shutdown flushes the object underneath, and shuts it down exactly when that is
/// done.
pub proof fn law_a_shutdown<U: PacketDataTransform>(
    p: &AsyncIoPacket<U>,
    begun: ShutdownAction,
    event: FlushEvent,
    action: ShutdownAction,
)
    requires
        call_ensures(AsyncIoPacket::<U>::begin_shutdown, (p,), begun),
        call_ensures(AsyncIoPacket::<U>::shutdown_after_flush, (p, event), action),
    ensures
        begun is FlushIo,
        action is ShutdownIo <==> event is Done,
        action is Wait <==> event is Pending,
        action is IoError <==> event is Failed,
{
}

/// Data is queued in packets, marked or not, after what is queued already.
pub proof fn law_data_is_queued<U: PacketDataTransform>(
    p: &mut AsyncIoPacket<U>,
    data: Vec<u8>,
    handshake: bool,
    r: (),
)
    requires
        call_ensures(
            AsyncIoPacket::<U>::make_write_packets_from_data,
            (p, data, handshake),
            r,
        ),
    ensures
        final(p)@.outgoing == old(p)@.outgoing + packets(data@, handshake),
        final(p)@.transform == old(p)@.transform,
        final(p)@.incoming == old(p)@.incoming,
        final(p)@.remaining == old(p)@.remaining,
{
}

/// What one layer asks to be written, the other makes the data of: between two layers
/// whose transforms are linked, and that owe each other nothing, the bytes of a write
/// that are handed over whole are read as what was written.
pub proof fn law_what_is_written_is_read<U: PacketDataTransform, K>(
    link: Link<U, K>,
    w: &mut AsyncIoPacket<U>,
    buf: &[u8],
    written: WriteStep,
    sent: usize,
    sent_w: &mut AsyncIoPacket<U>,
    done: WriteStep,
    r: &mut AsyncIoPacket<U>,
    wire: Vec<u8>,
    room: usize,
    read: ReadStep,
)
    requires
        link.holds(),
        link.owes(old(w)@, old(r)@, seq![], seq![]),
        call_ensures(AsyncIoPacket::<U>::begin_write, (w, buf), written),
        written.action == WriteAction::Write(wire),
        *old(sent_w) == *final(w),
        sent == wire@.len(),
        call_ensures(
            AsyncIoPacket::<U>::write_after_write,
            (sent_w, WriteEvent::Done(sent), buf@.len() as usize),
            done,
        ),
        room >= buf@.len(),
        call_ensures(
            AsyncIoPacket::<U>::read_after_fill,
            (r, FillEvent::Filled(wire), room),
            read,
        ),
    ensures
        read.output@ == buf@,
        done.action == WriteAction::Ready(buf@.len() as usize),
{
    let none = Seq::<u8>::empty();
    let wake = written.wake;
    law_write_is_owed(
        link,
        old(w)@,
        old(r)@,
        none,
        none,
        buf@,
        final(w)@,
        wake,
        written.action@,
    );
    assert(none + buf@ =~= buf@);
    law_sent_is_on_the_wire(
        link,
        final(w)@,
        old(r)@,
        none,
        buf@,
        wire@.len(),
    );
    assert(none + wire@.take(wire@.len() as int) =~= wire@);
    law_drop_bytes_is_skip(final(w)@.outgoing, wire@.len());
    law_read_gets_all(
        link,
        final(sent_w)@,
        old(r)@,
        wire@,
        buf@,
        room as nat,
        final(r)@,
        read@,
    );
}

} // verus!
