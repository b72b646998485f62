//! What a packet layer holds, and how each step changes it.
use crate::error::{PacketError, TransformError};
use crate::frame::{drop_bytes, first_message, joined, law_first_message_stable, packets};
use crate::step::{Phase, ReadActionView, ReadStepView, WriteActionView, WriteEvent};
use crate::transform::PacketDataTransform;
use vstd::prelude::*;

verus! {

/// What a packet layer holds.
#[verifier::ext_equal]
pub struct Flow<U> {
    /// The transform.
    pub transform: U,
    /// Bytes that have been received and not been transformed yet.
    pub incoming: Seq<u8>,
    /// Transformed bytes that have not been read yet.
    pub remaining: Seq<u8>,
    /// The packets that wait to be written.
    pub outgoing: Seq<Seq<u8>>,
}

/// A packet layer as it starts out.
pub open spec fn fresh<U>(transform: U) -> Flow<U> {
    Flow { transform, incoming: seq![], remaining: seq![], outgoing: seq![] }
}

/// The packet layer after a write of `n` bytes.
pub open spec fn written<U>(pre: Flow<U>, n: nat) -> Flow<U> {
    Flow { outgoing: drop_bytes(pre.outgoing, n), ..pre }
}

/// Whether a write is reason to wake up: there is handshaking to do, or packets
/// are left.
pub open spec fn more_to_do<U: PacketDataTransform>(f: Flow<U>) -> bool {
    f.transform.in_handshake() || f.outgoing.len() > 0
}

/// A handshake step with the given message may turn `pre` into `post` and give the
/// step. If the transform takes the message, what was received becomes `incoming`,
/// and if it answers, the answer is cut into packets, which are to be written.
pub open spec fn replied<U: PacketDataTransform>(
    pre: Flow<U>,
    msg: Seq<u8>,
    incoming: Seq<u8>,
    phase: Phase,
    output: Seq<u8>,
    post: Flow<U>,
    step: ReadStepView,
) -> bool {
    &&& step.output == output
    &&& exists|t: U, r: Result<(), TransformError>| #[trigger]
        pre.transform.steps(msg, &t, r) && match r {
            Err(e) => {
                &&& post == Flow { transform: t, ..pre }
                &&& !step.wake
                &&& step.action == ReadActionView::Fail(PacketError::Handshake(e))
            },
            Ok(_) => answered(Flow { transform: t, incoming, ..pre }, phase, post, step),
        }
}

/// The handshake bytes of the transform, if any, are cut into packets, which are
/// to be written.
pub open spec fn answered<U: PacketDataTransform>(
    pre: Flow<U>,
    phase: Phase,
    post: Flow<U>,
    step: ReadStepView,
) -> bool {
    if !pre.transform.intact() {
        &&& post == pre
        &&& !step.wake
        &&& step.action == ReadActionView::Poisoned
    } else {
        exists|t: U, r: Result<Option<Seq<u8>>, TransformError>| #[trigger]
            pre.transform.yields(&t, r) && match r {
                Err(e) => {
                    &&& post == Flow { transform: t, ..pre }
                    &&& !step.wake
                    &&& step.action == ReadActionView::Fail(PacketError::Handshake(e))
                },
                Ok(None) => {
                    &&& post == Flow { transform: t, ..pre }
                    &&& step.wake
                    &&& step.action == ReadActionView::Wait
                },
                Ok(Some(bytes)) => {
                    &&& post == Flow {
                        transform: t,
                        outgoing: pre.outgoing + packets(bytes, true),
                        ..pre
                    }
                    &&& if post.outgoing.len() == 0 {
                        &&& step.wake
                        &&& step.action == ReadActionView::Wait
                    } else {
                        &&& !step.wake
                        &&& step.action == ReadActionView::Write(phase, joined(post.outgoing))
                    }
                },
            }
    }
}

/// How a read begins. Transforming data cannot happen until the handshake is over,
/// so a handshake that is due is opened, and left-over handshake packets go out
/// first.
pub open spec fn read_begun<U: PacketDataTransform>(
    pre: Flow<U>,
    post: Flow<U>,
    step: ReadStepView,
) -> bool {
    if pre.transform.in_handshake() && pre.transform.opens_handshake() {
        replied(pre, seq![], pre.incoming, Phase::KickOff, seq![], post, step)
    } else {
        &&& post == pre
        &&& step == ReadStepView {
            output: seq![],
            wake: false,
            action: if pre.transform.in_handshake() && pre.outgoing.len() > 0 {
                ReadActionView::Write(Phase::Drain, joined(pre.outgoing))
            } else {
                ReadActionView::Fill
            },
        }
    }
}

/// What is left to write after a write that came to `event`.
pub open spec fn after_event<U>(pre: Flow<U>, event: WriteEvent) -> Flow<U> {
    match event {
        WriteEvent::Done(n) => written(pre, n as nat),
        _ => pre,
    }
}

/// How a read goes on after a write that left `post`.
pub open spec fn read_resumed<U: PacketDataTransform>(
    post: Flow<U>,
    phase: Phase,
    event: WriteEvent,
) -> ReadStepView {
    match (event, phase) {
        (WriteEvent::Failed, _) => ReadStepView {
            output: seq![],
            wake: false,
            action: ReadActionView::IoError,
        },
        (WriteEvent::Done(_), Phase::Drain) => ReadStepView {
            output: seq![],
            wake: more_to_do(post),
            action: if post.outgoing.len() > 0 {
                ReadActionView::Write(Phase::Drain, joined(post.outgoing))
            } else {
                ReadActionView::Fill
            },
        },
        _ => ReadStepView { output: seq![], wake: true, action: ReadActionView::Wait },
    }
}

/// How a read goes on once bytes have been received: `pre` may turn into `post`
/// with the given step. `out` is what the reader has got so far, `room` how much
/// more fits, and `wrote` whether the reader has got anything.
///
/// One message after the other is transformed and handed out, until no whole
/// message is left or the reader's room is used up. During the handshake, the
/// message goes to the handshake instead.
pub open spec fn delivered<U: PacketDataTransform>(
    pre: Flow<U>,
    out: Seq<u8>,
    room: nat,
    wrote: bool,
    post: Flow<U>,
    step: ReadStepView,
) -> bool
    decreases pre.incoming.len() via delivered_decreases::<U>
{
    match first_message(pre.incoming) {
        None => {
            &&& post == pre
            &&& step == ReadStepView {
                output: out,
                wake: !wrote && (pre.transform.in_handshake() || pre.incoming.len() > 0),
                action: if wrote {
                    ReadActionView::Ready
                } else {
                    ReadActionView::Wait
                },
            }
        },
        Some(m) => {
            let rest = pre.incoming.skip(m.size as int);
            if pre.transform.in_handshake() {
                if m.all_handshake() {
                    replied(pre, m.data, rest, Phase::Reply, out, post, step)
                } else {
                    &&& post == pre
                    &&& step == ReadStepView {
                        output: out,
                        wake: false,
                        action: ReadActionView::Fail(PacketError::DataInHandshake),
                    }
                }
            } else if m.any_handshake() {
                &&& post == pre
                &&& step == ReadStepView {
                    output: out,
                    wake: false,
                    action: ReadActionView::Fail(PacketError::HandshakeInData),
                }
            } else if !pre.transform.intact() {
                &&& post == pre
                &&& step == ReadStepView {
                    output: out,
                    wake: false,
                    action: ReadActionView::Poisoned,
                }
            } else {
                exists|t: U, r: Result<Seq<u8>, TransformError>| #[trigger]
                    pre.transform.reads(m.data, &t, r) && match r {
                        Err(e) => {
                            &&& post == Flow { transform: t, ..pre }
                            &&& step == ReadStepView {
                                output: out,
                                wake: false,
                                action: ReadActionView::Fail(PacketError::Payload(e)),
                            }
                        },
                        Ok(payload) => if payload.len() > room {
                            &&& post == Flow {
                                transform: t,
                                incoming: rest,
                                remaining: pre.remaining + payload.skip(room as int),
                                ..pre
                            }
                            &&& step == ReadStepView {
                                output: out + payload.take(room as int),
                                wake: false,
                                action: ReadActionView::Ready,
                            }
                        } else {
                            delivered(
                                Flow { transform: t, incoming: rest, ..pre },
                                out + payload,
                                (room - payload.len()) as nat,
                                true,
                                post,
                                step,
                            )
                        },
                    }
            }
        },
    }
}

#[via_fn]
proof fn delivered_decreases<U: PacketDataTransform>(
    pre: Flow<U>,
    out: Seq<u8>,
    room: nat,
    wrote: bool,
    post: Flow<U>,
    step: ReadStepView,
) {
    if first_message(pre.incoming) is Some {
        law_first_message_stable(pre.incoming, seq![]);
    }
}

/// How a read goes on once the object underneath has been read from. Bytes that
/// are left over from the last read come first.
pub open spec fn read_filled<U: PacketDataTransform>(
    pre: Flow<U>,
    filled: Seq<u8>,
    room: nat,
    post: Flow<U>,
    step: ReadStepView,
) -> bool {
    let got = Flow { incoming: pre.incoming + filled, ..pre };
    if pre.remaining.len() > room {
        &&& post == Flow { remaining: pre.remaining.skip(room as int), ..got }
        &&& step == ReadStepView {
            output: pre.remaining.take(room as int),
            wake: false,
            action: ReadActionView::Ready,
        }
    } else {
        delivered(
            Flow { remaining: seq![], ..got },
            pre.remaining,
            (room - pre.remaining.len()) as nat,
            pre.remaining.len() > 0,
            post,
            step,
        )
    }
}

/// Why data could not be transformed.
pub enum Refusal {
    /// The transform is beyond use.
    Poisoned,
    /// The transform refused.
    Refused(TransformError),
}

/// How much of `data` the transform takes at once.
pub open spec fn chunk_len<U: PacketDataTransform>(transform: U, data: Seq<u8>) -> nat {
    match transform.payload_limit() {
        Some(limit) if 0 < limit < data.len() => limit as nat,
        _ => data.len(),
    }
}

/// Transforming `data`, chunk by chunk, may turn `pre` into `post` and succeed,
/// or fail. Each chunk becomes a message, which is cut into packets. The chunks
/// before one that fails stay.
pub open spec fn encoded<U: PacketDataTransform>(
    pre: Flow<U>,
    data: Seq<u8>,
    post: Flow<U>,
    refusal: Option<Refusal>,
) -> bool
    decreases data.len(),
{
    let n = chunk_len(pre.transform, data);
    if data.len() == 0 {
        &&& post == pre
        &&& refusal is None
    } else if !pre.transform.intact() {
        &&& post == pre
        &&& refusal == Some(Refusal::Poisoned)
    } else {
        exists|t: U, r: Result<Seq<u8>, TransformError>| #[trigger]
            pre.transform.writes(data.take(n as int), &t, r) && match r {
                Err(e) => {
                    &&& post == Flow { transform: t, ..pre }
                    &&& refusal == Some(Refusal::Refused(e))
                },
                Ok(msg) => encoded(
                    Flow { transform: t, outgoing: pre.outgoing + packets(msg, false), ..pre },
                    data.skip(n as int),
                    post,
                    refusal,
                ),
            }
    }
}

/// How a write begins. Nothing is written during the handshake.
pub open spec fn write_begun<U: PacketDataTransform>(
    pre: Flow<U>,
    data: Seq<u8>,
    post: Flow<U>,
    wake: bool,
    action: WriteActionView,
) -> bool {
    &&& !wake
    &&& if pre.transform.in_handshake() {
        &&& post == pre
        &&& action == WriteActionView::Handshake
    } else if data.len() == 0 {
        &&& post == pre
        &&& action == WriteActionView::Ready(0)
    } else {
        match action {
            WriteActionView::Poisoned => encoded(pre, data, post, Some(Refusal::Poisoned)),
            WriteActionView::Fail(PacketError::Message(e)) => encoded(
                pre,
                data,
                post,
                Some(Refusal::Refused(e)),
            ),
            WriteActionView::Ready(n) => {
                &&& encoded(pre, data, post, None)
                &&& post.outgoing.len() == 0
                &&& n == data.len()
            },
            WriteActionView::Write(bytes) => {
                &&& encoded(pre, data, post, None)
                &&& post.outgoing.len() > 0
                &&& bytes == joined(post.outgoing)
            },
            _ => false,
        }
    }
}

} // verus!
