//! What holds of packet layers with each of the transforms.
use crate::checksum_transform::{law_checksum_round_trip, ChecksumPacketDataTransform};
use crate::delivery::{
    law_handshake_message_arrives, law_nothing_owed_at_first, takes, within, Link,
};
use crate::error::{PacketError, TransformError};
use crate::flow::{answered, fresh, read_begun, read_filled, replied, written, Flow};
use crate::frame::{joined, law_drop_bytes_is_skip, packets};
use crate::noise_transform::{
    law_noise_handshake, made, NoisePacketDataTransform, NoiseProtocolStep, NoiseView,
};
use crate::noop_transform::NoopPacketDataTransform;
use crate::otp_transform::{law_padding_twice, OtpPacketDataTransform, OTP_HANDSHAKE_LEN};
use crate::pad_rng::PadRng;
use crate::snow_link::{handshake_mates, NOISE_KEY};
use crate::step::{Phase, ReadActionView, ReadStepView};
use crate::transform::PacketDataTransform;
use vstd::prelude::*;

verus! {

/// Any two layers without transformation are linked.
pub open spec fn noop_link() -> Link<NoopPacketDataTransform, ()> {
    Link {
        key: |t: NoopPacketDataTransform| (),
        linked: |w: NoopPacketDataTransform, k: ()| true,
    }
}

/// What is written without transformation is read back, and is always accepted.
pub proof fn law_noop_link(w: NoopPacketDataTransform, n: nat)
    ensures
        noop_link().holds(),
        (noop_link().linked)(w, ()),
        takes(w, n),
    decreases n,
{
    if n > 0 {
        assert forall|
            payload: Seq<u8>,
            t1: NoopPacketDataTransform,
            r: Result<Seq<u8>, TransformError>,
        |
            #[trigger] w.writes(payload, &t1, r) && 0 < payload.len() && within(
                w.payload_limit(),
                payload.len(),
            ) implies r is Ok && takes(t1, (n - 1) as nat) by {
            law_noop_link(t1, (n - 1) as nat);
        }
    }
}

/// Any two layers with checksums are linked.
pub open spec fn checksum_link() -> Link<ChecksumPacketDataTransform, ()> {
    Link {
        key: |t: ChecksumPacketDataTransform| (),
        linked: |w: ChecksumPacketDataTransform, k: ()| true,
    }
}

/// What is written with checksums is read back, and is always accepted.
pub proof fn law_checksum_link(w: ChecksumPacketDataTransform, n: nat)
    ensures
        checksum_link().holds(),
        (checksum_link().linked)(w, ()),
        takes(w, n),
    decreases n,
{
    let link = checksum_link();
    assert forall|
        w: ChecksumPacketDataTransform,
        k: (),
        payload: Seq<u8>,
        w1: ChecksumPacketDataTransform,
        msg: Seq<u8>,
    |
        #[trigger] (link.linked)(w, k) && payload.len() > 0 && #[trigger] w.writes(
            payload,
            &w1,
            Ok(msg),
        ) implies msg.len() > 0 && link.reads_back(k, msg, payload, w1) by {
        assert forall|
            r: ChecksumPacketDataTransform,
            t: ChecksumPacketDataTransform,
            res: Result<Seq<u8>, TransformError>,
        |
            (link.key)(r) == k && #[trigger] r.reads(msg, &t, res) implies res == Ok::<
            Seq<u8>,
            TransformError,
        >(payload) && (link.linked)(w1, (link.key)(t)) by {
            law_checksum_round_trip(w, w1, payload, Ok(msg), r, t, res);
        }
    }
    if n > 0 {
        assert forall|
            payload: Seq<u8>,
            t1: ChecksumPacketDataTransform,
            r: Result<Seq<u8>, TransformError>,
        |
            #[trigger] w.writes(payload, &t1, r) && 0 < payload.len() && within(
                w.payload_limit(),
                payload.len(),
            ) implies r is Ok && takes(t1, (n - 1) as nat) by {
            law_checksum_link(t1, (n - 1) as nat);
        }
    }
}

/// Two layers with a one-time pad are linked if the reader is past its handshake
/// and their generators are in the same state.
pub open spec fn otp_link<T: PadRng>() -> Link<OtpPacketDataTransform<T>, (T, bool)> {
    Link {
        key: |t: OtpPacketDataTransform<T>| (t@.rng, t.in_handshake()),
        linked: |w: OtpPacketDataTransform<T>, k: (T, bool)| k == (w@.rng, false),
    }
}

/// What is written with a one-time pad is read back, and is always accepted.
pub proof fn law_otp_link<T: PadRng>(w: OtpPacketDataTransform<T>, n: nat)
    ensures
        otp_link::<T>().holds(),
        takes(w, n),
    decreases n,
{
    let link = otp_link::<T>();
    assert forall|
        w: OtpPacketDataTransform<T>,
        k: (T, bool),
        payload: Seq<u8>,
        w1: OtpPacketDataTransform<T>,
        msg: Seq<u8>,
    |
        #[trigger] (link.linked)(w, k) && payload.len() > 0 && #[trigger] w.writes(
            payload,
            &w1,
            Ok(msg),
        ) implies msg.len() > 0 && link.reads_back(k, msg, payload, w1) by {
        law_padding_twice(payload, w@.rng);
    }
    if n > 0 {
        assert forall|
            payload: Seq<u8>,
            t1: OtpPacketDataTransform<T>,
            r: Result<Seq<u8>, TransformError>,
        |
            #[trigger] w.writes(payload, &t1, r) && 0 < payload.len() && within(
                w.payload_limit(),
                payload.len(),
            ) implies r is Ok && takes(t1, (n - 1) as nat) by {
            law_otp_link(t1, (n - 1) as nat);
        }
    }
}

/// With a one-time pad the two directions share the pad, so the ends take turns:
/// once everything that was written has been read, the other end can write.
pub proof fn law_otp_turns<T: PadRng>(
    w: Flow<OtpPacketDataTransform<T>>,
    r: Flow<OtpPacketDataTransform<T>>,
)
    requires
        otp_link::<T>().owes(w, r, seq![], seq![]),
        r.incoming.len() == 0,
        w.outgoing.len() == 0,
        !w.transform.in_handshake(),
        w.incoming.len() == 0,
        w.remaining.len() == 0,
        r.outgoing.len() == 0,
    ensures
        otp_link::<T>().owes(r, w, seq![], seq![]),
{
    assert(joined(w.outgoing) =~= seq![]);
    assert((r.incoming + Seq::<u8>::empty() + joined(w.outgoing)).len() == 0);
    law_nothing_owed_at_first(otp_link::<T>(), r, w);
}

/// Two layers with the Noise protocol are linked if the reader decrypts with the
/// writer's cipher, from the same nonce on.
pub open spec fn noise_link() -> Link<NoisePacketDataTransform, Option<(Seq<u8>, u64)>> {
    Link {
        key: |t: NoisePacketDataTransform|
            match t@ {
                NoiseView::Transport { receiver, .. } => Some(receiver),
                _ => None,
            },
        linked: |w: NoisePacketDataTransform, k: Option<(Seq<u8>, u64)>|
            match w@ {
                NoiseView::Transport { sender, .. } => k == Some(sender),
                _ => false,
            },
    }
}

/// What is encrypted with the Noise protocol is read back.
pub proof fn law_noise_link()
    ensures
        noise_link().holds(),
{
}

/// A session takes payloads as long as it has nonces for them.
pub proof fn law_noise_takes(w: NoisePacketDataTransform, n: nat)
    requires
        w@ matches NoiseView::Transport { sender, .. } && sender.1 + n <= u64::MAX,
    ensures
        takes(w, n),
    decreases n,
{
    if n > 0 {
        assert forall|
            payload: Seq<u8>,
            t1: NoisePacketDataTransform,
            r: Result<Seq<u8>, TransformError>,
        |
            #[trigger] w.writes(payload, &t1, r) && 0 < payload.len() && within(
                w.payload_limit(),
                payload.len(),
            ) implies r is Ok && takes(t1, (n - 1) as nat) by {
            law_noise_takes(t1, (n - 1) as nat);
        }
    }
}

/// With the Noise protocol the two directions are separate: writing does not change
/// how an end reads, and reading does not change what it is linked with.
pub proof fn law_noise_directions(
    t: NoisePacketDataTransform,
    bytes: Seq<u8>,
    after: NoisePacketDataTransform,
    r: Result<Seq<u8>, TransformError>,
)
    ensures
        t.writes(bytes, &after, r) ==> (noise_link().key)(after) == (noise_link().key)(t),
        t.reads(bytes, &after, r) ==> forall|k: Option<(Seq<u8>, u64)>| #[trigger]
            (noise_link().linked)(t, k) ==> (noise_link().linked)(after, k),
{
}

/// A layer that has written everything it had queued.
pub open spec fn all_sent<U>(f: Flow<U>) -> Flow<U> {
    written(f, joined(f.outgoing).len())
}

/// A layer that has received some bytes.
pub open spec fn received<U>(f: Flow<U>, bytes: Seq<u8>) -> Flow<U> {
    Flow { incoming: bytes, ..f }
}

/// A client and a server layer with a one-time pad, from the same seed, come
/// through the handshake: the client opens it, the server takes the message once
/// it has arrived, in whatever pieces, and then they are ready for data, in either
/// direction.
pub proof fn law_otp_layers_connect<T: PadRng>(
    client: OtpPacketDataTransform<T>,
    server: OtpPacketDataTransform<T>,
    c: Flow<OtpPacketDataTransform<T>>,
    c_step: ReadStepView,
    earlier: Seq<u8>,
    filled: Seq<u8>,
    room: nat,
    s: Flow<OtpPacketDataTransform<T>>,
    s_step: ReadStepView,
)
    requires
        client@.stage is HandshakingSend,
        server@.stage is HandshakingWait,
        client@.rng == server@.rng,
        client@.handshake_bytes is None,
        server@.handshake_bytes is None,
        read_begun(fresh(client), c, c_step),
        earlier + filled == joined(c.outgoing),
        read_filled(received(fresh(server), earlier), filled, room, s, s_step),
    ensures
        c_step.action == ReadActionView::Write(Phase::KickOff, joined(c.outgoing)),
        s_step.action is Wait && s_step.wake && s_step.output.len() == 0,
        otp_link::<T>().owes(all_sent(c), s, seq![], seq![]),
        otp_link::<T>().owes(s, all_sent(c), seq![], seq![]),
{
    let len = OTP_HANDSHAKE_LEN as nat;
    client@.rng.bytes_len(len);
    let msg = client@.rng.bytes(len);
    assert(c.outgoing =~= packets(msg, true));
    assert(joined(c.outgoing) + Seq::<u8>::empty() =~= joined(c.outgoing));
    law_handshake_message_arrives(
        received(fresh(server), earlier),
        filled,
        msg,
        seq![],
        room,
        s,
        s_step,
    );
    law_drop_bytes_is_skip(c.outgoing, joined(c.outgoing).len());
    law_nothing_owed_at_first(otp_link::<T>(), all_sent(c), s);
    law_nothing_owed_at_first(otp_link::<T>(), s, all_sent(c));
}

/// What a layer has queued goes out whole.
proof fn lemma_all_sent<U>(f: Flow<U>)
    ensures
        all_sent(f).outgoing.len() == 0,
{
    law_drop_bytes_is_skip(f.outgoing, joined(f.outgoing).len());
}

/// The two calls of the transform behind a handshake step of a layer with nothing
/// queued.
proof fn lemma_replied<U: PacketDataTransform>(
    pre: Flow<U>,
    msg: Seq<u8>,
    incoming: Seq<u8>,
    phase: Phase,
    post: Flow<U>,
    step: ReadStepView,
) -> (calls: (
    U,
    Result<(), TransformError>,
    U,
    Result<Option<Seq<u8>>, TransformError>,
))
    requires
        replied(pre, msg, incoming, phase, seq![], post, step),
        pre.outgoing.len() == 0,
    ensures
        pre.transform.steps(msg, &calls.0, calls.1),
        calls.1 is Ok && calls.0.intact() ==> calls.0.yields(&calls.2, calls.3),
        calls.3 matches Ok(Some(bytes)) ==> calls.1 is Ok && calls.0.intact() && bytes.len() > 0
            ==> {
            &&& post == Flow {
                transform: calls.2,
                incoming,
                outgoing: packets(bytes, true),
                ..pre
            }
            &&& step.action == ReadActionView::Write(phase, joined(post.outgoing))
        },
        calls.1 is Ok && calls.0.intact() && calls.3 == Ok::<
            Option<Seq<u8>>,
            TransformError,
        >(None) ==> {
            &&& post == Flow { transform: calls.2, incoming, ..pre }
            &&& step.wake
            &&& step.action is Wait
        },
{
    let (t, r) = choose|t: U, r: Result<(), TransformError>| #[trigger]
        pre.transform.steps(msg, &t, r) && match r {
            Err(e) => {
                &&& post == Flow { transform: t, ..pre }
                &&& !step.wake
                &&& step.action == ReadActionView::Fail(PacketError::Handshake(e))
            },
            Ok(_) => answered(Flow { transform: t, incoming, ..pre }, phase, post, step),
        };
    let mid = Flow { transform: t, incoming, ..pre };
    let (t1, f) = choose|t1: U, f: Result<Option<Seq<u8>>, TransformError>| #[trigger]
        mid.transform.yields(&t1, f) && match f {
            Err(e) => {
                &&& post == Flow { transform: t1, ..mid }
                &&& !step.wake
                &&& step.action == ReadActionView::Fail(PacketError::Handshake(e))
            },
            Ok(None) => {
                &&& post == Flow { transform: t1, ..mid }
                &&& step.wake
                &&& step.action == ReadActionView::Wait
            },
            Ok(Some(bytes)) => {
                &&& post == Flow {
                    transform: t1,
                    outgoing: mid.outgoing + packets(bytes, true),
                    ..mid
                }
                &&& if post.outgoing.len() == 0 {
                    &&& step.wake
                    &&& step.action == ReadActionView::Wait
                } else {
                    &&& !step.wake
                    &&& step.action == ReadActionView::Write(phase, joined(post.outgoing))
                }
            },
        };
    if let Ok(Some(bytes)) = f {
        assert(pre.outgoing + packets(bytes, true) =~= packets(bytes, true));
    }
    (t, r, t1, f)
}

/// A client and a server layer with the Noise protocol and the same pre-shared key
/// come through the handshake: the client opens it, each takes the other's message
/// once it has arrived, in whatever pieces, and answers it, and then they are ready
/// for data, in either direction.
pub proof fn law_noise_layers_connect(
    psk: Seq<u8>,
    client: NoisePacketDataTransform,
    server: NoisePacketDataTransform,
    c: (Flow<NoisePacketDataTransform>, Flow<NoisePacketDataTransform>),
    s: (Flow<NoisePacketDataTransform>, Flow<NoisePacketDataTransform>),
    steps: (ReadStepView, ReadStepView, ReadStepView, ReadStepView),
    earlier: (Seq<u8>, Seq<u8>, Seq<u8>),
    filled: (Seq<u8>, Seq<u8>, Seq<u8>),
    room: nat,
)
    requires
        psk.len() == NOISE_KEY,
        made(Ok(client), NoiseProtocolStep::ClientStart, psk),
        made(Ok(server), NoiseProtocolStep::ServerStart, psk),
        read_begun(fresh(client), c.0, steps.0),
        earlier.0 + filled.0 == joined(c.0.outgoing),
        read_filled(received(fresh(server), earlier.0), filled.0, room, s.0, steps.1),
        earlier.1 + filled.1 == joined(s.0.outgoing),
        read_filled(received(all_sent(c.0), earlier.1), filled.1, room, c.1, steps.2),
        earlier.2 + filled.2 == joined(c.1.outgoing),
        read_filled(received(all_sent(s.0), earlier.2), filled.2, room, s.1, steps.3),
    ensures
        steps.0.action == ReadActionView::Write(Phase::KickOff, joined(c.0.outgoing)),
        steps.1.action == ReadActionView::Write(Phase::Reply, joined(s.0.outgoing)),
        steps.2.action == ReadActionView::Write(Phase::Reply, joined(c.1.outgoing)),
        steps.3.action is Wait && steps.3.wake,
        noise_link().owes(all_sent(c.1), s.1, seq![], seq![]),
        noise_link().owes(s.1, all_sent(c.1), seq![], seq![]),
{
    let none = Seq::<u8>::empty();
    // the client opens the handshake
    let a = lemma_replied(fresh(client), none, none, Phase::KickOff, c.0, steps.0);
    assert(handshake_mates(server@->noise, client@->noise));
    let msg_a = a.0@->Handshake_bytes->0;
    lemma_all_sent(c.0);
    // the server answers
    let s_pre = received(fresh(server), earlier.0);
    assert(earlier.0 + filled.0 =~= joined(packets(msg_a, true)) + none);
    law_handshake_message_arrives(s_pre, filled.0, msg_a, none, room, s.0, steps.1);
    let b = lemma_replied(
        received(s_pre, earlier.0 + filled.0),
        msg_a,
        none,
        Phase::Reply,
        s.0,
        steps.1,
    );
    let msg_b = b.0@->Handshake_bytes->0;
    lemma_all_sent(s.0);
    // the client answers and is done
    let c_pre = received(all_sent(c.0), earlier.1);
    assert(earlier.1 + filled.1 =~= joined(packets(msg_b, true)) + none);
    law_handshake_message_arrives(c_pre, filled.1, msg_b, none, room, c.1, steps.2);
    let d = lemma_replied(
        received(c_pre, earlier.1 + filled.1),
        msg_b,
        none,
        Phase::Reply,
        c.1,
        steps.2,
    );
    let msg_d = d.0@->Transport_bytes->0;
    lemma_all_sent(c.1);
    // the server is done
    let s_pre = received(all_sent(s.0), earlier.2);
    assert(earlier.2 + filled.2 =~= joined(packets(msg_d, true)) + none);
    law_handshake_message_arrives(s_pre, filled.2, msg_d, none, room, s.1, steps.3);
    let e = lemma_replied(
        received(s_pre, earlier.2 + filled.2),
        msg_d,
        none,
        Phase::Reply,
        s.1,
        steps.3,
    );
    law_noise_handshake(
        psk,
        (client, a.0, a.2, d.0, d.2),
        (server, b.0, b.2, e.0),
        (a.1, b.1, d.1, e.1),
        (a.3, b.3, d.3),
    );
    law_nothing_owed_at_first(noise_link(), all_sent(c.1), s.1);
    law_nothing_owed_at_first(noise_link(), s.1, all_sent(c.1));
}

} // verus!
