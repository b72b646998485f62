//! The pieces in which bytes arrive do not matter.
//!
//! Nothing is asked here of where the bytes come from. They may have been written by
//! a layer, or they may be anything.
use crate::checksum_transform::ChecksumPacketDataTransform;
use crate::error::{PacketError, TransformError};
use crate::flow::{answered, delivered, read_begun, read_filled, replied, Flow};
use crate::frame::{first_message, law_first_message_stable, Message};
use crate::noise_transform::{receives_with, NoisePacketDataTransform};
use crate::noop_transform::NoopPacketDataTransform;
use crate::otp_transform::OtpPacketDataTransform;
use crate::pad_rng::PadRng;
use crate::step::{Phase, ReadActionView, ReadStepView};
use crate::transform::PacketDataTransform;
use vstd::prelude::*;

verus! {

// ---------------------------------------------------------------------------
// Messages
// ---------------------------------------------------------------------------

/// The messages that have fully arrived, in order.
pub open spec fn messages(bytes: Seq<u8>) -> Seq<Message>
    decreases bytes.len(),
{
    match first_message(bytes) {
        Some(m) if 0 < m.size <= bytes.len() => seq![m] + messages(bytes.skip(m.size as int)),
        _ => seq![],
    }
}

/// What is left of the bytes without the first `n` messages.
pub open spec fn without(bytes: Seq<u8>, n: nat) -> Seq<u8>
    decreases n,
{
    if n == 0 {
        bytes
    } else {
        match first_message(bytes) {
            Some(m) => without(bytes.skip(m.size as int), (n - 1) as nat),
            None => bytes,
        }
    }
}

/// More bytes do not change the messages that have fully arrived.
proof fn lemma_without(bytes: Seq<u8>, n: nat, more: Seq<u8>)
    requires
        n <= messages(bytes).len(),
    ensures
        messages(bytes + more) == messages(bytes).take(n as int) + messages(
            without(bytes, n) + more,
        ),
        without(bytes + more, n) == without(bytes, n) + more,
    decreases n,
{
    let all = messages(bytes);
    if n == 0 {
        assert(all.take(0) + messages(bytes + more) =~= messages(bytes + more));
    } else {
        let m = first_message(bytes)->0;
        law_first_message_stable(bytes, more);
        let rest = bytes.skip(m.size as int);
        assert((bytes + more).skip(m.size as int) =~= rest + more);
        lemma_without(rest, (n - 1) as nat, more);
        assert(all =~= seq![m] + messages(rest));
        assert(all.take(n as int) =~= seq![m] + messages(rest).take(n - 1));
        assert(messages(bytes + more) =~= seq![m] + messages(rest + more));
        assert(messages(bytes + more) =~= all.take(n as int) + messages(
            without(bytes, n) + more,
        ));
    }
}

/// Delivery takes whole messages from the front.
proof fn lemma_delivered_takes<U: PacketDataTransform>(
    pre: Flow<U>,
    out: Seq<u8>,
    room: nat,
    wrote: bool,
    post: Flow<U>,
    step: ReadStepView,
) -> (n: nat)
    requires
        delivered(pre, out, room, wrote, post, step),
    ensures
        n <= messages(pre.incoming).len(),
        post.incoming == without(pre.incoming, n),
    decreases pre.incoming.len(),
{
    if first_message(pre.incoming) is None {
        0
    } else {
        let m = first_message(pre.incoming)->0;
        law_first_message_stable(pre.incoming, seq![]);
        let rest = pre.incoming.skip(m.size as int);
        assert(without(rest, 0) == rest);
        assert(without(pre.incoming, 1) == rest);
        if post.incoming == pre.incoming {
            0
        } else if post.incoming == rest {
            1
        } else {
            let (t, payload) = choose|t: U, payload: Seq<u8>| #[trigger]
                pre.transform.reads(m.data, &t, Ok(payload)) && delivered(
                    Flow { transform: t, incoming: rest, ..pre },
                    out + payload,
                    (room - payload.len()) as nat,
                    true,
                    post,
                    step,
                );
            let n = lemma_delivered_takes(
                Flow { transform: t, incoming: rest, ..pre },
                out + payload,
                (room - payload.len()) as nat,
                true,
                post,
                step,
            );
            n + 1
        }
    }
}

/// A read, in the handshake or after it, takes whole messages from the front of what
/// was received, in order; the messages that later reads find are the others,
/// whatever arrives by then.
pub proof fn law_messages_taken_in_order<U: PacketDataTransform>(
    f: Flow<U>,
    filled: Seq<u8>,
    room: nat,
    after: Flow<U>,
    step: ReadStepView,
    later: Seq<u8>,
)
    requires
        read_filled(f, filled, room, after, step),
    ensures
        exists|n: nat| #[trigger]
            without(f.incoming + filled, n) == after.incoming && n <= messages(
                f.incoming + filled,
            ).len() && messages(f.incoming + filled + later) == messages(
                f.incoming + filled,
            ).take(n as int) + messages(after.incoming + later),
{
    let bytes = f.incoming + filled;
    if f.remaining.len() > room {
        lemma_without(bytes, 0, later);
        assert(without(bytes, 0) == after.incoming);
    } else {
        let n = lemma_delivered_takes(
            Flow { incoming: bytes, remaining: Seq::<u8>::empty(), ..f },
            f.remaining,
            (room - f.remaining.len()) as nat,
            f.remaining.len() > 0,
            after,
            step,
        );
        lemma_without(bytes, n, later);
    }
}

// ---------------------------------------------------------------------------
// What is handed out
// ---------------------------------------------------------------------------

/// The payload, if the message was accepted.
pub open spec fn accepted(r: Result<Seq<u8>, TransformError>) -> Option<Seq<u8>> {
    match r {
        Ok(payload) => Some(payload),
        Err(_) => None,
    }
}

/// How a transform reads is a function of its key and of the message. A message that
/// is refused leaves the key as it is, and reading does not start a handshake.
pub open spec fn determined<U: PacketDataTransform, K>(key: spec_fn(U) -> K) -> bool {
    &&& forall|a: U, b: U|
        #[trigger] key(a) == #[trigger] key(b) ==> a.in_handshake() == b.in_handshake()
            && a.intact() == b.intact()
    &&& forall|
        a: U,
        b: U,
        msg: Seq<u8>,
        a1: U,
        b1: U,
        ra: Result<Seq<u8>, TransformError>,
        rb: Result<Seq<u8>, TransformError>,
    |
        key(a) == key(b) && #[trigger] a.reads(msg, &a1, ra) && #[trigger] b.reads(msg, &b1, rb)
            ==> accepted(ra) == accepted(rb) && key(a1) == key(b1)
    &&& forall|a: U, msg: Seq<u8>, a1: U, ra: Result<Seq<u8>, TransformError>|
        !a.in_handshake() && #[trigger] a.reads(msg, &a1, ra) ==> !a1.in_handshake() && (
        ra is Err ==> key(a1) == key(a))
}

/// The handshake of a transform is a function of its key and of the messages. Once it
/// has been opened it is not to be opened again, and it ends with a message that is
/// refused.
pub open spec fn handshake_determined<U: PacketDataTransform, K>(key: spec_fn(U) -> K) -> bool {
    &&& forall|a: U, b: U|
        #[trigger] key(a) == #[trigger] key(b) ==> a.opens_handshake() == b.opens_handshake()
    &&& forall|
        a: U,
        b: U,
        msg: Seq<u8>,
        a1: U,
        b1: U,
        ra: Result<(), TransformError>,
        rb: Result<(), TransformError>,
    |
        key(a) == key(b) && #[trigger] a.steps(msg, &a1, ra) && #[trigger] b.steps(msg, &b1, rb)
            ==> (ra is Ok <==> rb is Ok) && key(a1) == key(b1)
    &&& forall|
        a: U,
        b: U,
        a1: U,
        b1: U,
        ra: Result<Option<Seq<u8>>, TransformError>,
        rb: Result<Option<Seq<u8>>, TransformError>,
    |
        key(a) == key(b) && #[trigger] a.yields(&a1, ra) && #[trigger] b.yields(&b1, rb) ==> key(
            a1,
        ) == key(b1)
    &&& forall|a: U, msg: Seq<u8>, a1: U, ra: Result<(), TransformError>|
        a.in_handshake() && #[trigger] a.steps(msg, &a1, ra) ==> !opening(a1) && (ra is Err
            ==> !a1.in_handshake())
    &&& forall|a: U, a1: U, ra: Result<Option<Seq<u8>>, TransformError>|
        !opening(a) && #[trigger] a.yields(&a1, ra) ==> !opening(a1)
}

/// The transform has a handshake to open.
pub open spec fn opening<U: PacketDataTransform>(t: U) -> bool {
    t.in_handshake() && t.opens_handshake()
}

/// A transform with the key can read.
pub open spec fn readable<U: PacketDataTransform, K>(key: spec_fn(U) -> K, k: K) -> bool {
    exists|t: U| #[trigger] key(t) == k && t.intact() && !t.in_handshake()
}

/// A transform with the key is in its handshake.
pub open spec fn shaking<U: PacketDataTransform, K>(key: spec_fn(U) -> K, k: K) -> bool {
    exists|t: U| #[trigger] key(t) == k && t.in_handshake()
}

/// A transform with the key has a handshake to open.
pub open spec fn to_open<U: PacketDataTransform, K>(key: spec_fn(U) -> K, k: K) -> bool {
    exists|t: U| #[trigger] key(t) == k && opening(t)
}

/// A transform with the key makes the payload of the message, and then has the key
/// `k1`.
pub open spec fn opens<U: PacketDataTransform, K>(
    key: spec_fn(U) -> K,
    k: K,
    msg: Seq<u8>,
    payload: Seq<u8>,
    k1: K,
) -> bool {
    exists|t: U, t1: U|
        key(t) == k && key(t1) == k1 && #[trigger] t.reads(msg, &t1, Ok(payload))
}

/// Fetching the handshake bytes of a transform, if it is not beyond use, leaves it
/// with the key `k1`.
pub open spec fn fetched<U: PacketDataTransform, K>(key: spec_fn(U) -> K, t: U, k1: K) -> bool {
    if t.intact() {
        exists|t1: U, r: Result<Option<Seq<u8>>, TransformError>|
            key(t1) == k1 && #[trigger] t.yields(&t1, r)
    } else {
        key(t) == k1
    }
}

/// A transform with the key takes the handshake message, and has the key `k1` once its
/// handshake bytes have been fetched.
pub open spec fn takes_step<U: PacketDataTransform, K>(
    key: spec_fn(U) -> K,
    k: K,
    msg: Seq<u8>,
    k1: K,
) -> bool {
    exists|t: U, t1: U, r: Result<(), TransformError>|
        key(t) == k && r is Ok && fetched(key, t1, k1) && #[trigger] t.steps(msg, &t1, r)
}

/// A transform with the key refuses the handshake message, and then has the key `k1`.
pub open spec fn refuses_step<U: PacketDataTransform, K>(
    key: spec_fn(U) -> K,
    k: K,
    msg: Seq<u8>,
    k1: K,
) -> bool {
    exists|t: U, t1: U, r: Result<(), TransformError>|
        key(t) == k && r is Err && key(t1) == k1 && #[trigger] t.steps(msg, &t1, r)
}

/// The key once the handshake has been opened, if it is to be opened.
pub open spec fn opened<U: PacketDataTransform, K>(key: spec_fn(U) -> K, k: K) -> K {
    if !to_open(key, k) {
        k
    } else if exists|k1: K| takes_step(key, k, seq![], k1) {
        choose|k1: K| takes_step(key, k, seq![], k1)
    } else {
        choose|k1: K| refuses_step(key, k, seq![], k1)
    }
}

/// What becomes of a stream of bytes.
#[verifier::ext_equal]
pub struct Reading<K> {
    /// The payloads, put together.
    pub output: Seq<u8>,
    /// The key of the transform afterwards.
    pub key: K,
    /// The bytes that are left: a message that is refused and all that follows it, or
    /// one that has not fully arrived.
    pub left: Seq<u8>,
}

/// What a transform with the key makes of a stream of bytes. During the handshake,
/// messages go to the handshake.
pub open spec fn reading<U: PacketDataTransform, K>(
    key: spec_fn(U) -> K,
    k: K,
    bytes: Seq<u8>,
) -> Reading<K>
    decreases bytes.len(),
{
    match first_message(bytes) {
        Some(m) if 0 < m.size <= bytes.len() => {
            let rest = bytes.skip(m.size as int);
            if shaking(key, k) {
                if !m.all_handshake() {
                    stopped(k, bytes)
                } else if exists|k1: K| takes_step(key, k, m.data, k1) {
                    let k1 = choose|k1: K| takes_step(key, k, m.data, k1);
                    reading(key, k1, rest)
                } else if exists|k1: K| refuses_step(key, k, m.data, k1) {
                    let k1 = choose|k1: K| refuses_step(key, k, m.data, k1);
                    stopped(k1, bytes)
                } else {
                    stopped(k, bytes)
                }
            } else if m.any_handshake() || !readable(key, k) {
                stopped(k, bytes)
            } else if exists|payload: Seq<u8>, k1: K| opens(key, k, m.data, payload, k1) {
                let (payload, k1) = choose|payload: Seq<u8>, k1: K|
                    opens(key, k, m.data, payload, k1);
                let next = reading(key, k1, rest);
                Reading { output: payload + next.output, ..next }
            } else {
                stopped(k, bytes)
            }
        },
        _ => stopped(k, bytes),
    }
}

/// A reading that goes no further.
pub open spec fn stopped<K>(k: K, bytes: Seq<u8>) -> Reading<K> {
    Reading { output: seq![], key: k, left: bytes }
}

/// One message of a reading after the handshake.
proof fn lemma_reading_one<U: PacketDataTransform, K>(
    key: spec_fn(U) -> K,
    t: U,
    bytes: Seq<u8>,
    t1: U,
    r: Result<Seq<u8>, TransformError>,
)
    requires
        determined(key),
        first_message(bytes) is Some,
        !first_message(bytes)->0.any_handshake(),
        t.intact() && !t.in_handshake(),
        t.reads(first_message(bytes)->0.data, &t1, r),
    ensures
        ({
            let m = first_message(bytes)->0;
            let next = reading(key, key(t1), bytes.skip(m.size as int));
            match r {
                Ok(payload) => reading(key, key(t), bytes) == (Reading {
                    output: payload + next.output,
                    ..next
                }),
                Err(_) => reading(key, key(t), bytes) == stopped(key(t), bytes),
            }
        }),
{
    let m = first_message(bytes)->0;
    law_first_message_stable(bytes, seq![]);
    assert(readable(key, key(t)));
    assert(!shaking(key, key(t)));
    match r {
        Ok(payload) => {
            assert(opens(key, key(t), m.data, payload, key(t1)));
            assert forall|p: Seq<u8>, k1: K| #[trigger]
                opens(key, key(t), m.data, p, k1) implies p == payload && k1 == key(t1) by {
                let (a, a1) = choose|a: U, a1: U|
                    key(a) == key(t) && key(a1) == k1 && #[trigger] a.reads(m.data, &a1, Ok(p));
                assert(accepted(Ok(p)) == accepted(r));
            }
        },
        Err(e) => {
            assert forall|p: Seq<u8>, k1: K| !(#[trigger] opens(key, key(t), m.data, p, k1)) by {
                if opens(key, key(t), m.data, p, k1) {
                    let (a, a1) = choose|a: U, a1: U|
                        key(a) == key(t) && key(a1) == k1 && #[trigger] a.reads(
                            m.data,
                            &a1,
                            Ok(p),
                        );
                    assert(accepted(Ok(p)) == accepted(r));
                }
            }
        },
    }
}

/// What a step of the handshake comes to: the transform took the message and is `t2`
/// once its handshake bytes have been fetched, or it refused it and is `t2`.
pub open spec fn step_came_to<U: PacketDataTransform>(
    t: U,
    msg: Seq<u8>,
    t2: U,
    taken: bool,
) -> bool {
    exists|t1: U, r: Result<(), TransformError>| #[trigger]
        t.steps(msg, &t1, r) && (r is Ok <==> taken) && if taken && t1.intact() {
            exists|f: Result<Option<Seq<u8>>, TransformError>| #[trigger] t1.yields(&t2, f)
        } else {
            t2 == t1
        }
}

/// The key decides what a step of the handshake comes to.
proof fn lemma_step_determined<U: PacketDataTransform, K>(
    key: spec_fn(U) -> K,
    t: U,
    msg: Seq<u8>,
    t2: U,
    taken: bool,
)
    requires
        determined(key),
        handshake_determined(key),
        t.in_handshake(),
        step_came_to(t, msg, t2, taken),
    ensures
        !opening(t2),
        !taken ==> !t2.in_handshake(),
        taken ==> takes_step(key, key(t), msg, key(t2)),
        taken ==> forall|k1: K| #[trigger] takes_step(key, key(t), msg, k1) ==> k1 == key(t2),
        !taken ==> refuses_step(key, key(t), msg, key(t2)),
        !taken ==> forall|k1: K| !(#[trigger] takes_step(key, key(t), msg, k1)),
        !taken ==> forall|k1: K| #[trigger] refuses_step(key, key(t), msg, k1) ==> k1 == key(t2),
{
    let (t1, r) = choose|t1: U, r: Result<(), TransformError>| #[trigger]
        t.steps(msg, &t1, r) && (r is Ok <==> taken) && if taken && t1.intact() {
            exists|f: Result<Option<Seq<u8>>, TransformError>| #[trigger] t1.yields(&t2, f)
        } else {
            t2 == t1
        };
    assert(!opening(t1));
    if taken {
        assert(fetched(key, t1, key(t2)));
        assert forall|k1: K| #[trigger] takes_step(key, key(t), msg, k1) implies k1 == key(t2) by {
            let (a, a1, ra) = choose|a: U, a1: U, ra: Result<(), TransformError>|
                key(a) == key(t) && ra is Ok && fetched(key, a1, k1) && #[trigger] a.steps(
                    msg,
                    &a1,
                    ra,
                );
            assert(key(a1) == key(t1));
            assert(a1.intact() == t1.intact());
        }
    } else {
        assert forall|k1: K| !(#[trigger] takes_step(key, key(t), msg, k1)) by {
            if takes_step(key, key(t), msg, k1) {
                let (a, a1, ra) = choose|a: U, a1: U, ra: Result<(), TransformError>|
                    key(a) == key(t) && ra is Ok && fetched(key, a1, k1) && #[trigger] a.steps(
                        msg,
                        &a1,
                        ra,
                    );
                assert(key(a1) == key(t1));
            }
        }
        assert forall|k1: K| #[trigger] refuses_step(key, key(t), msg, k1) implies k1 == key(
            t2,
        ) by {
            let (a, a1, ra) = choose|a: U, a1: U, ra: Result<(), TransformError>|
                key(a) == key(t) && ra is Err && key(a1) == k1 && #[trigger] a.steps(
                    msg,
                    &a1,
                    ra,
                );
            assert(key(a1) == key(t1));
        }
    }
}

/// What a handshake step of a layer comes to for its transform.
proof fn lemma_replied_step<U: PacketDataTransform>(
    pre: Flow<U>,
    msg: Seq<u8>,
    incoming: Seq<u8>,
    phase: Phase,
    out: Seq<u8>,
    post: Flow<U>,
    step: ReadStepView,
) -> (taken: bool)
    requires
        replied(pre, msg, incoming, phase, out, post, step),
    ensures
        step_came_to(pre.transform, msg, post.transform, taken),
        post.incoming == (if taken {
            incoming
        } else {
            pre.incoming
        }),
        post.remaining == pre.remaining,
        step.output == out,
{
    let (t, r) = choose|t: U, r: Result<(), TransformError>| #[trigger]
        pre.transform.steps(msg, &t, r) && match r {
            Err(e) => {
                &&& post == Flow { transform: t, ..pre }
                &&& !step.wake
                &&& step.action == ReadActionView::Fail(PacketError::Handshake(e))
            },
            Ok(_) => answered(Flow { transform: t, incoming, ..pre }, phase, post, step),
        };
    r is Ok
}

/// What delivery hands out, keeps and leaves is what the reading says.
proof fn lemma_delivered_reading<U: PacketDataTransform, K>(
    key: spec_fn(U) -> K,
    pre: Flow<U>,
    out: Seq<u8>,
    room: nat,
    wrote: bool,
    post: Flow<U>,
    step: ReadStepView,
    later: Seq<u8>,
) -> (x: Seq<u8>)
    requires
        determined(key),
        pre.transform.in_handshake() ==> handshake_determined(key),
        pre.remaining.len() == 0,
        delivered(pre, out, room, wrote, post, step),
    ensures
        step.output == out + x,
        post.transform.in_handshake() ==> pre.transform.in_handshake(),
        !opening(pre.transform) ==> !opening(post.transform),
        ({
            let before = reading(key, key(pre.transform), pre.incoming + later);
            let after = reading(key, key(post.transform), post.incoming + later);
            &&& before.output == x + post.remaining + after.output
            &&& before.key == after.key
            &&& before.left == after.left
        }),
        x.len() == 0 && room > 0 && (pre.transform.in_handshake() ==> post.incoming.len()
            == pre.incoming.len()) ==> {
            &&& post.remaining.len() == 0
            &&& reading(key, key(post.transform), post.incoming) == stopped(
                key(post.transform),
                post.incoming,
            )
        },
    decreases pre.incoming.len(),
{
    let none = Seq::<u8>::empty();
    let bytes = pre.incoming + later;
    let before = reading(key, key(pre.transform), bytes);
    assert(out + none =~= out);
    assert(none + pre.remaining + before.output =~= before.output);
    if first_message(pre.incoming) is None {
        none
    } else {
        let m = first_message(pre.incoming)->0;
        law_first_message_stable(pre.incoming, later);
        let rest = pre.incoming.skip(m.size as int);
        assert(bytes.skip(m.size as int) =~= rest + later);
        if pre.transform.in_handshake() {
            assert(shaking(key, key(pre.transform)));
            if m.all_handshake() {
                let taken = lemma_replied_step(
                    pre,
                    m.data,
                    rest,
                    Phase::Reply,
                    out,
                    post,
                    step,
                );
                lemma_step_determined(key, pre.transform, m.data, post.transform, taken);
                assert(m.marks[0]);
                assert(m.any_handshake());
                if !taken {
                    assert(!shaking(key, key(post.transform)));
                }
                let after = reading(key, key(post.transform), post.incoming + later);
                assert(none + post.remaining + after.output =~= after.output);
            }
            none
        } else if m.any_handshake() {
            assert(!shaking(key, key(pre.transform)));
            none
        } else if !pre.transform.intact() {
            assert(!shaking(key, key(pre.transform)));
            assert(!readable(key, key(pre.transform)));
            none
        } else {
            let (t, r) = choose|t: U, r: Result<Seq<u8>, TransformError>| #[trigger]
                pre.transform.reads(m.data, &t, r) && match r {
                    Err(e) => {
                        &&& post == Flow { transform: t, ..pre }
                        &&& step == ReadStepView {
                            output: out,
                            wake: false,
                            action: ReadActionView::Fail(PacketError::Payload(e)),
                        }
                    },
                    Ok(payload) => if payload.len() > room {
                        &&& post == Flow {
                            transform: t,
                            incoming: rest,
                            remaining: pre.remaining + payload.skip(room as int),
                            ..pre
                        }
                        &&& step == ReadStepView {
                            output: out + payload.take(room as int),
                            wake: false,
                            action: ReadActionView::Ready,
                        }
                    } else {
                        delivered(
                            Flow { transform: t, incoming: rest, ..pre },
                            out + payload,
                            (room - payload.len()) as nat,
                            true,
                            post,
                            step,
                        )
                    },
                };
            lemma_reading_one(key, pre.transform, bytes, t, r);
            lemma_reading_one(key, pre.transform, pre.incoming, t, r);
            match r {
                Err(_) => none,
                Ok(payload) => {
                    if payload.len() > room {
                        let x = payload.take(room as int);
                        assert(post.remaining =~= payload.skip(room as int));
                        assert(x + post.remaining =~= payload);
                        x
                    } else {
                        let y = lemma_delivered_reading(
                            key,
                            Flow { transform: t, incoming: rest, ..pre },
                            out + payload,
                            (room - payload.len()) as nat,
                            true,
                            post,
                            step,
                            later,
                        );
                        let x = payload + y;
                        let after = reading(key, key(post.transform), post.incoming + later);
                        assert(out + x =~= out + payload + y);
                        assert(before.output =~= x + post.remaining + after.output);
                        x
                    }
                },
            }
        }
    }
}

/// One read does the next part of what the reading says, and leaves the rest to later
/// reads, whatever arrives by then.
pub proof fn law_read_follows_the_reading<U: PacketDataTransform, K>(
    key: spec_fn(U) -> K,
    f: Flow<U>,
    filled: Seq<u8>,
    room: nat,
    after: Flow<U>,
    step: ReadStepView,
    later: Seq<u8>,
)
    requires
        determined(key),
        f.transform.in_handshake() ==> handshake_determined(key),
        !opening(f.transform),
        read_filled(f, filled, room, after, step),
    ensures
        after.transform.in_handshake() ==> f.transform.in_handshake(),
        !opening(after.transform),
        ({
            let whole = reading(key, key(f.transform), f.incoming + (filled + later));
            let rest = reading(key, key(after.transform), after.incoming + later);
            &&& f.remaining + whole.output == step.output + (after.remaining + rest.output)
            &&& whole.key == rest.key
            &&& whole.left == rest.left
        }),
        dry(f, filled, room, after, step) ==> {
            &&& after.remaining.len() == 0
            &&& reading(key, key(after.transform), after.incoming) == stopped(
                key(after.transform),
                after.incoming,
            )
        },
{
    let bytes = f.incoming + filled;
    let whole = reading(key, key(f.transform), f.incoming + (filled + later));
    let rest = reading(key, key(after.transform), after.incoming + later);
    assert(f.incoming + (filled + later) =~= bytes + later);
    if f.remaining.len() > room {
        assert(f.remaining + whole.output =~= step.output + (after.remaining + rest.output));
    } else {
        let x = lemma_delivered_reading(
            key,
            Flow { incoming: bytes, remaining: Seq::<u8>::empty(), ..f },
            f.remaining,
            (room - f.remaining.len()) as nat,
            f.remaining.len() > 0,
            after,
            step,
            later,
        );
        assert(f.remaining + whole.output =~= step.output + (after.remaining + rest.output));
    }
}

/// A read with room from which no output came, and in which, during the handshake, no
/// message was taken either.
pub open spec fn dry<U: PacketDataTransform>(
    f: Flow<U>,
    filled: Seq<u8>,
    room: nat,
    after: Flow<U>,
    step: ReadStepView,
) -> bool {
    &&& room > 0
    &&& step.output.len() == 0
    &&& f.transform.in_handshake() ==> after.incoming.len() == f.incoming.len() + filled.len()
}

/// One read: the packets that are queued by then, the bytes that arrive for it, the
/// room that the reader has, and what comes of it.
pub struct Round<U> {
    pub queued: Seq<Seq<u8>>,
    pub filled: Seq<u8>,
    pub room: nat,
    pub step: ReadStepView,
    pub after: Flow<U>,
}

/// The round is a read of a layer that was `f` after the last one. A read that opens
/// the handshake ends with that, and nothing arrives for it. In between, queued
/// packets may have gone out.
pub open spec fn one_read<U: PacketDataTransform>(f: Flow<U>, round: Round<U>) -> bool {
    let now = Flow { outgoing: round.queued, ..f };
    if opening(f.transform) {
        &&& read_begun(now, round.after, round.step)
        &&& round.filled.len() == 0
    } else {
        read_filled(now, round.filled, round.room, round.after, round.step)
    }
}

/// The rounds are reads, one after the other, of a layer that starts out as `f`.
pub open spec fn reads_on<U: PacketDataTransform>(f: Flow<U>, rounds: Seq<Round<U>>) -> bool
    decreases rounds.len(),
{
    rounds.len() > 0 ==> {
        &&& one_read(f, rounds[0])
        &&& reads_on(rounds[0].after, rounds.drop_first())
    }
}

/// All the bytes that arrive in the rounds.
pub open spec fn arrived<U>(rounds: Seq<Round<U>>) -> Seq<u8>
    decreases rounds.len(),
{
    if rounds.len() == 0 {
        seq![]
    } else {
        rounds[0].filled + arrived(rounds.drop_first())
    }
}

/// All the bytes that the reader gets in the rounds.
pub open spec fn handed_out<U>(rounds: Seq<Round<U>>) -> Seq<u8>
    decreases rounds.len(),
{
    if rounds.len() == 0 {
        seq![]
    } else {
        rounds[0].step.output + handed_out(rounds.drop_first())
    }
}

/// The last of the rounds came to nothing.
pub open spec fn run_dry<U: PacketDataTransform>(f: Flow<U>, rounds: Seq<Round<U>>) -> bool
    decreases rounds.len(),
{
    if rounds.len() == 0 {
        false
    } else if rounds.len() == 1 {
        &&& !opening(f.transform)
        &&& dry(f, rounds[0].filled, rounds[0].room, rounds[0].after, rounds[0].step)
    } else {
        run_dry(rounds[0].after, rounds.drop_first())
    }
}

/// The messages that were taken from the front of `before` to leave `after`.
pub open spec fn taken_off(before: Seq<u8>, after: Seq<u8>) -> Seq<Message> {
    let n = choose|n: nat| #[trigger]
        without(before, n) == after && n <= messages(before).len();
    messages(before).take(n as int)
}

/// The messages that were taken in the rounds, in order. During the handshake they
/// were handed to the handshake, and afterwards to be read.
pub open spec fn taken<U>(f: Flow<U>, rounds: Seq<Round<U>>) -> Seq<Message>
    decreases rounds.len(),
{
    if rounds.len() == 0 {
        seq![]
    } else {
        taken_off(f.incoming + rounds[0].filled, rounds[0].after.incoming) + taken(
            rounds[0].after,
            rounds.drop_first(),
        )
    }
}

/// What the opening of the handshake leaves of a layer.
proof fn lemma_opened<U: PacketDataTransform>(f: Flow<U>, round: Round<U>)
    requires
        opening(f.transform),
        one_read(f, round),
    ensures
        round.after.incoming == f.incoming,
        round.after.remaining == f.remaining,
        round.step.output.len() == 0,
        exists|took: bool| #[trigger]
            step_came_to(f.transform, seq![], round.after.transform, took),
{
    let now = Flow { outgoing: round.queued, ..f };
    let took = lemma_replied_step(
        now,
        seq![],
        f.incoming,
        Phase::KickOff,
        seq![],
        round.after,
        round.step,
    );
    assert(step_came_to(f.transform, seq![], round.after.transform, took));
}

/// Reads take the messages that arrive in order, none twice and none left out, in the
/// handshake and after it, whatever the transform does.
pub proof fn law_taken_in_order<U: PacketDataTransform>(f: Flow<U>, rounds: Seq<Round<U>>)
    requires
        reads_on(f, rounds),
    ensures
        ({
            let end = if rounds.len() == 0 {
                f
            } else {
                rounds.last().after
            };
            messages(f.incoming + arrived(rounds)) == taken(f, rounds) + messages(end.incoming)
        }),
    decreases rounds.len(),
{
    let none = Seq::<Message>::empty();
    if rounds.len() == 0 {
        assert(f.incoming + arrived(rounds) =~= f.incoming);
        assert(none + messages(f.incoming) =~= messages(f.incoming));
    } else {
        let first = rounds[0];
        let others = rounds.drop_first();
        let before = f.incoming + first.filled;
        let later = arrived(others);
        if opening(f.transform) {
            lemma_opened(f, first);
            assert(before =~= f.incoming);
            assert(without(before, 0) == first.after.incoming);
        } else {
            let now = Flow { outgoing: first.queued, ..f };
            law_messages_taken_in_order(
                now,
                first.filled,
                first.room,
                first.after,
                first.step,
                later,
            );
        }
        let n = choose|n: nat| #[trigger]
            without(before, n) == first.after.incoming && n <= messages(before).len();
        lemma_without(before, n, later);
        law_taken_in_order(first.after, others);
        assert(f.incoming + arrived(rounds) =~= before + later);
        assert(others.len() > 0 ==> others.last() == rounds.last());
        let end = rounds.last().after;
        assert(taken(f, rounds) + messages(end.incoming) =~= messages(before).take(n as int) + (
        taken(first.after, others) + messages(end.incoming)));
    }
}

/// Reads until no more comes of them hand out all that the reading says of the bytes
/// that arrived, and leave what it leaves.
pub proof fn law_rounds_follow_the_reading<U: PacketDataTransform, K>(
    key: spec_fn(U) -> K,
    f: Flow<U>,
    rounds: Seq<Round<U>>,
)
    requires
        determined(key),
        f.transform.in_handshake() ==> handshake_determined(key),
        reads_on(f, rounds),
        run_dry(f, rounds),
    ensures
        ({
            let whole = reading(
                key,
                opened(key, key(f.transform)),
                f.incoming + arrived(rounds),
            );
            &&& handed_out(rounds) == f.remaining + whole.output
            &&& rounds.last().after.incoming == whole.left
            &&& rounds.last().after.remaining.len() == 0
            &&& key(rounds.last().after.transform) == whole.key
        }),
    decreases rounds.len(),
{
    let none = Seq::<u8>::empty();
    let first = rounds[0];
    let others = rounds.drop_first();
    let later = arrived(others);
    let k = key(f.transform);
    if opening(f.transform) {
        lemma_opened(f, first);
        let took = choose|took: bool| #[trigger]
            step_came_to(f.transform, seq![], first.after.transform, took);
        lemma_step_determined(key, f.transform, seq![], first.after.transform, took);
        assert(to_open(key, k));
        assert(opened(key, k) == key(first.after.transform));
        lemma_not_to_open(key, first.after.transform);
        assert(others.last() == rounds.last());
        law_rounds_follow_the_reading(key, first.after, others);
        assert(arrived(rounds) =~= later);
        assert(handed_out(rounds) =~= handed_out(others));
    } else {
        let now = Flow { outgoing: first.queued, ..f };
        lemma_not_to_open(key, f.transform);
        law_read_follows_the_reading(
            key,
            now,
            first.filled,
            first.room,
            first.after,
            first.step,
            later,
        );
        if others.len() == 0 {
            assert(rounds.last() == first);
            assert(first.after.incoming + none =~= first.after.incoming);
            assert(first.after.remaining =~= none);
            assert(handed_out(others) =~= none);
            assert(handed_out(rounds) =~= f.remaining + reading(
                key,
                k,
                f.incoming + arrived(rounds),
            ).output);
        } else {
            assert(others.last() == rounds.last());
            lemma_not_to_open(key, first.after.transform);
            law_rounds_follow_the_reading(key, first.after, others);
        }
    }
}

/// Where there is no handshake to open, the key stays.
proof fn lemma_not_to_open<U: PacketDataTransform, K>(key: spec_fn(U) -> K, t: U)
    requires
        determined(key),
        t.in_handshake() ==> handshake_determined(key),
        !opening(t),
    ensures
        opened(key, key(t)) == key(t),
{
    assert(!to_open(key, key(t)));
}

/// Two layers in the same state that take in the same bytes, in whatever pieces, with
/// whatever room and with however many reads for which nothing arrives, and are read
/// until no more comes of it, have taken the same messages in the same order, have
/// handed out the same bytes, and are in the same state again.
///
/// This holds of a layer past its handshake if reading is a function of the key, and
/// of one in its handshake if that is one, too.
pub proof fn law_pieces_do_not_matter<U: PacketDataTransform, K>(
    key: spec_fn(U) -> K,
    f: Flow<U>,
    f_rounds: Seq<Round<U>>,
    g: Flow<U>,
    g_rounds: Seq<Round<U>>,
)
    requires
        determined(key),
        f.transform.in_handshake() ==> handshake_determined(key),
        key(f.transform) == key(g.transform),
        f.incoming == g.incoming,
        f.remaining == g.remaining,
        reads_on(f, f_rounds),
        reads_on(g, g_rounds),
        arrived(f_rounds) == arrived(g_rounds),
        run_dry(f, f_rounds),
        run_dry(g, g_rounds),
    ensures
        taken(f, f_rounds) == taken(g, g_rounds),
        handed_out(f_rounds) == handed_out(g_rounds),
        f_rounds.last().after.incoming == g_rounds.last().after.incoming,
        f_rounds.last().after.remaining == g_rounds.last().after.remaining,
        key(f_rounds.last().after.transform) == key(g_rounds.last().after.transform),
{
    law_rounds_follow_the_reading(key, f, f_rounds);
    law_rounds_follow_the_reading(key, g, g_rounds);
    assert(f_rounds.last().after.remaining =~= g_rounds.last().after.remaining);
    law_taken_in_order(f, f_rounds);
    law_taken_in_order(g, g_rounds);
    let end = messages(f_rounds.last().after.incoming);
    let all = messages(f.incoming + arrived(f_rounds));
    assert(taken(f, f_rounds) =~= all.take(all.len() - end.len()));
    assert(taken(g, g_rounds) =~= all.take(all.len() - end.len()));
}

// ---------------------------------------------------------------------------
// The transforms
// ---------------------------------------------------------------------------

/// Without transformation there is nothing that anything depends on but the message.
pub proof fn law_noop_is_determined()
    ensures
        determined(|t: NoopPacketDataTransform| ()),
        handshake_determined(|t: NoopPacketDataTransform| ()),
{
}

/// With checksums there is nothing that anything depends on but the message.
pub proof fn law_checksum_is_determined()
    ensures
        determined(|t: ChecksumPacketDataTransform| ()),
        handshake_determined(|t: ChecksumPacketDataTransform| ()),
{
}

/// With a one-time pad, the handshake and reading depend on what the transform holds.
pub proof fn law_otp_is_determined<T: PadRng>()
    ensures
        determined(|t: OtpPacketDataTransform<T>| t@),
        handshake_determined(|t: OtpPacketDataTransform<T>| t@),
{
}

/// With the Noise protocol, reading depends on the cipher that the session receives
/// with. Its handshake draws random keys, and depends on more than that.
pub proof fn law_noise_is_determined()
    ensures
        determined(|t: NoisePacketDataTransform| (receives_with(t), t.in_handshake())),
{
}

} // verus!
