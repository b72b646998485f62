//! What two packet layers promise each other: what one takes, the other hands out, in
//! order and exactly once. A layer takes the bytes of a write when the write begins,
//! whatever comes of writing to the object underneath.
use crate::error::{PacketError, TransformError};
use crate::flow::{
    chunk_len, delivered, encoded, read_filled, replied, write_begun, written, Flow, Refusal,
};
use crate::frame::{
    first_message, joined, law_drop_bytes_is_skip, law_first_message_stable, law_joined_concat,
    law_message_round_trip, packets,
};
use crate::step::{Phase, ReadActionView, ReadStepView, WriteActionView};
use crate::transform::PacketDataTransform;
use vstd::prelude::*;

verus! {

/// How the transforms of a writer and of a reader fit together.
#[verifier::reject_recursive_types(U)]
#[verifier::reject_recursive_types(K)]
pub struct Link<U, K> {
    /// What decides how a reader's transform reads.
    pub key: spec_fn(U) -> K,
    /// A reader with this key can read what the writer's transform writes next.
    pub linked: spec_fn(U, K) -> bool,
}

impl<U: PacketDataTransform, K> Link<U, K> {
    /// A reader with the key is past its handshake and can read.
    pub open spec fn can_read(self, k: K) -> bool {
        forall|r: U| #[trigger] (self.key)(r) == k ==> r.intact() && !r.in_handshake()
    }

    /// Whatever a reader with the key makes of the message, it is the payload, and
    /// it is linked with the writer afterwards.
    pub open spec fn reads_back(self, k: K, msg: Seq<u8>, payload: Seq<u8>, w: U) -> bool {
        forall|r: U, t: U, res: Result<Seq<u8>, TransformError>|
            (self.key)(r) == k && #[trigger] r.reads(msg, &t, res) ==> {
                &&& res == Ok::<Seq<u8>, TransformError>(payload)
                &&& (self.linked)(w, (self.key)(t))
            }
    }

    /// A linked reader reads back what the writer writes, and stays linked.
    pub open spec fn holds(self) -> bool {
        &&& forall|w: U, k: K| #[trigger] (self.linked)(w, k) ==> self.can_read(k)
        &&& forall|w: U, k: K, payload: Seq<u8>, w1: U, msg: Seq<u8>|
            #[trigger] (self.linked)(w, k) && payload.len() > 0 && #[trigger] w.writes(
                payload,
                &w1,
                Ok(msg),
            ) ==> msg.len() > 0 && self.reads_back(k, msg, payload, w1)
    }

    /// A reader with the key makes `data` of the stream `bytes`, whatever it does,
    /// and is linked with the writer afterwards.
    pub open spec fn carries(self, w: U, k: K, bytes: Seq<u8>, data: Seq<u8>) -> bool
        decreases bytes.len(),
    {
        if bytes.len() == 0 {
            &&& data.len() == 0
            &&& (self.linked)(w, k)
        } else {
            &&& first_message(bytes) matches Some(m)
            &&& 0 < m.size <= bytes.len()
            &&& !m.any_handshake()
            &&& self.can_read(k)
            &&& forall|r: U, t: U, res: Result<Seq<u8>, TransformError>|
                (self.key)(r) == k && #[trigger] r.reads(m.data, &t, res) ==> {
                    &&& res matches Ok(p)
                    &&& p.len() <= data.len()
                    &&& data.take(p.len() as int) == p
                    &&& self.carries(
                        w,
                        (self.key)(t),
                        bytes.skip(m.size as int),
                        data.skip(p.len() as int),
                    )
                }
        }
    }

    /// The writer has still to get `owed` to the reader: part of it is left over at
    /// the reader, and the rest is carried by what the reader has received, by what
    /// is on the wire, and by what the writer has queued.
    pub open spec fn owes(self, w: Flow<U>, r: Flow<U>, wire: Seq<u8>, owed: Seq<u8>) -> bool {
        &&& r.remaining.len() <= owed.len()
        &&& owed.take(r.remaining.len() as int) == r.remaining
        &&& self.carries(
            w.transform,
            (self.key)(r.transform),
            r.incoming + wire + joined(w.outgoing),
            owed.skip(r.remaining.len() as int),
        )
    }
}

/// One more message at the end of a stream carries one more payload.
proof fn lemma_carries_more<U: PacketDataTransform, K>(
    link: Link<U, K>,
    w: U,
    k: K,
    bytes: Seq<u8>,
    data: Seq<u8>,
    payload: Seq<u8>,
    w1: U,
    msg: Seq<u8>,
)
    requires
        link.holds(),
        link.carries(w, k, bytes, data),
        payload.len() > 0,
        w.writes(payload, &w1, Ok(msg)),
    ensures
        link.carries(w1, k, bytes + joined(packets(msg, false)), data + payload),
    decreases bytes.len(),
{
    let more = joined(packets(msg, false));
    let all = bytes + more;
    let all_data = data + payload;
    if bytes.len() == 0 {
        assert((link.linked)(w, k));
        assert(link.reads_back(k, msg, payload, w1));
        assert(link.can_read(k));
        law_message_round_trip(msg, false, seq![]);
        assert(all =~= more + Seq::<u8>::empty());
        law_first_message_stable(all, seq![]);
        let m = first_message(all)->0;
        assert(!m.any_handshake());
        assert forall|r: U, t: U, res: Result<Seq<u8>, TransformError>|
            (link.key)(r) == k && #[trigger] r.reads(m.data, &t, res) implies {
            &&& res matches Ok(p)
            &&& p.len() <= all_data.len()
            &&& all_data.take(p.len() as int) == p
            &&& link.carries(
                w1,
                (link.key)(t),
                all.skip(m.size as int),
                all_data.skip(p.len() as int),
            )
        } by {
            assert(all_data =~= payload);
            assert(all_data.take(payload.len() as int) =~= payload);
            assert(all.skip(m.size as int).len() == 0);
            assert(all_data.skip(payload.len() as int).len() == 0);
        }
    } else {
        let m = first_message(bytes)->0;
        law_first_message_stable(bytes, more);
        assert(all.skip(m.size as int) =~= bytes.skip(m.size as int) + more);
        assert forall|r: U, t: U, res: Result<Seq<u8>, TransformError>|
            (link.key)(r) == k && #[trigger] r.reads(m.data, &t, res) implies {
            &&& res matches Ok(p)
            &&& p.len() <= all_data.len()
            &&& all_data.take(p.len() as int) == p
            &&& link.carries(
                w1,
                (link.key)(t),
                all.skip(m.size as int),
                all_data.skip(p.len() as int),
            )
        } by {
            let p = res->Ok_0;
            assert(all_data.take(p.len() as int) =~= data.take(p.len() as int));
            assert(all_data.skip(p.len() as int) =~= data.skip(p.len() as int) + payload);
            lemma_carries_more(
                link,
                w,
                (link.key)(t),
                bytes.skip(m.size as int),
                data.skip(p.len() as int),
                payload,
                w1,
                msg,
            );
        }
    }
}

/// Whatever is encoded is carried.
proof fn lemma_encoded_is_carried<U: PacketDataTransform, K>(
    link: Link<U, K>,
    w: Flow<U>,
    k: K,
    ahead: Seq<u8>,
    data: Seq<u8>,
    buf: Seq<u8>,
    post: Flow<U>,
)
    requires
        link.holds(),
        link.carries(w.transform, k, ahead + joined(w.outgoing), data),
        encoded(w, buf, post, None),
    ensures
        link.carries(post.transform, k, ahead + joined(post.outgoing), data + buf),
    decreases buf.len(),
{
    if buf.len() == 0 {
        assert(data + buf =~= data);
    } else {
        let n = chunk_len(w.transform, buf);
        let (t, r) = choose|t: U, r: Result<Seq<u8>, TransformError>| #[trigger]
            w.transform.writes(buf.take(n as int), &t, r) && match r {
                Err(e) => false,
                Ok(msg) => encoded(
                    Flow { transform: t, outgoing: w.outgoing + packets(msg, false), ..w },
                    buf.skip(n as int),
                    post,
                    None,
                ),
            };
        let msg = r->Ok_0;
        let mid = Flow { transform: t, outgoing: w.outgoing + packets(msg, false), ..w };
        let payload = buf.take(n as int);
        lemma_carries_more(
            link,
            w.transform,
            k,
            ahead + joined(w.outgoing),
            data,
            payload,
            t,
            msg,
        );
        law_joined_concat(w.outgoing, packets(msg, false));
        assert(ahead + joined(mid.outgoing) =~= ahead + joined(w.outgoing) + joined(
            packets(msg, false),
        ));
        lemma_encoded_is_carried(
            link,
            mid,
            k,
            ahead,
            data + payload,
            buf.skip(n as int),
            post,
        );
        assert(data + payload + buf.skip(n as int) =~= data + buf);
    }
}

/// A write adds what it was given to what the writer owes, in whole.
pub proof fn law_write_is_owed<U: PacketDataTransform, K>(
    link: Link<U, K>,
    w: Flow<U>,
    r: Flow<U>,
    wire: Seq<u8>,
    owed: Seq<u8>,
    buf: Seq<u8>,
    w_after: Flow<U>,
    wake: bool,
    action: WriteActionView,
)
    requires
        link.holds(),
        link.owes(w, r, wire, owed),
        write_begun(w, buf, w_after, wake, action),
        action is Write || action is Ready,
    ensures
        link.owes(w_after, r, wire, owed + buf),
{
    let n = r.remaining.len() as int;
    let data = owed.skip(n);
    assert((owed + buf).take(n) =~= owed.take(n));
    assert((owed + buf).skip(n) =~= data + buf);
    if buf.len() == 0 {
        assert(data + buf =~= data);
    } else {
        lemma_encoded_is_carried(
            link,
            w,
            (link.key)(r.transform),
            r.incoming + wire,
            data,
            buf,
            w_after,
        );
    }
}

/// Bytes that have been written move from the writer to the wire; nothing is lost,
/// doubled or put in another order, however few of them went out.
pub proof fn law_sent_is_on_the_wire<U: PacketDataTransform, K>(
    link: Link<U, K>,
    w: Flow<U>,
    r: Flow<U>,
    wire: Seq<u8>,
    owed: Seq<u8>,
    n: nat,
)
    requires
        link.owes(w, r, wire, owed),
        n <= joined(w.outgoing).len(),
    ensures
        link.owes(written(w, n), r, wire + joined(w.outgoing).take(n as int), owed),
{
    let queued = joined(w.outgoing);
    law_drop_bytes_is_skip(w.outgoing, n);
    assert(r.incoming + wire + queued =~= r.incoming + (wire + queued.take(n as int))
        + queued.skip(n as int));
}

/// What delivery hands out and keeps is what comes next in what is carried.
proof fn lemma_delivered<U: PacketDataTransform, K>(
    link: Link<U, K>,
    w: U,
    pre: Flow<U>,
    out: Seq<u8>,
    room: nat,
    wrote: bool,
    post: Flow<U>,
    step: ReadStepView,
    beyond: Seq<u8>,
    data: Seq<u8>,
) -> (x: Seq<u8>)
    requires
        link.holds(),
        pre.remaining.len() == 0,
        delivered(pre, out, room, wrote, post, step),
        link.carries(w, (link.key)(pre.transform), pre.incoming + beyond, data),
    ensures
        step.output == out + x,
        x.len() <= room,
        step.action is Ready || step.action is Wait,
        x.len() > 0 || wrote ==> step.action is Ready,
        x.len() + post.remaining.len() <= data.len(),
        data.take(x.len() as int) == x,
        data.skip(x.len() as int).take(post.remaining.len() as int) == post.remaining,
        link.carries(
            w,
            (link.key)(post.transform),
            post.incoming + beyond,
            data.skip(x.len() as int).skip(post.remaining.len() as int),
        ),
        post.outgoing == pre.outgoing,
        beyond.len() == 0 && room >= data.len() ==> x == data,
        beyond.len() == 0 && room > 0 && x.len() == 0 ==> data.len() == 0,
    decreases pre.incoming.len(),
{
    let bytes = pre.incoming + beyond;
    if first_message(pre.incoming) is None {
        let x = Seq::<u8>::empty();
        assert(out + x =~= out);
        assert(data.take(0) =~= x);
        assert(data.skip(0) =~= data);
        assert(data.take(0) =~= post.remaining);
        assert(bytes.len() > 0 ==> first_message(bytes) is Some);
        if beyond.len() == 0 {
            assert(bytes =~= pre.incoming);
            assert(data =~= x);
        }
        x
    } else {
        let m = first_message(pre.incoming)->0;
        law_first_message_stable(pre.incoming, beyond);
        let rest = pre.incoming.skip(m.size as int);
        assert(bytes.skip(m.size as int) =~= rest + beyond);
        assert(link.can_read((link.key)(pre.transform)));
        assert(!pre.transform.in_handshake() && pre.transform.intact());
        let (t, r) = choose|t: U, r: Result<Seq<u8>, TransformError>| #[trigger]
            pre.transform.reads(m.data, &t, r) && match r {
                Err(e) => {
                    &&& post == Flow { transform: t, ..pre }
                    &&& step == ReadStepView {
                        output: out,
                        wake: false,
                        action: ReadActionView::Fail(PacketError::Payload(e)),
                    }
                },
                Ok(payload) => if payload.len() > room {
                    &&& post == Flow {
                        transform: t,
                        incoming: rest,
                        remaining: pre.remaining + payload.skip(room as int),
                        ..pre
                    }
                    &&& step == ReadStepView {
                        output: out + payload.take(room as int),
                        wake: false,
                        action: ReadActionView::Ready,
                    }
                } else {
                    delivered(
                        Flow { transform: t, incoming: rest, ..pre },
                        out + payload,
                        (room - payload.len()) as nat,
                        true,
                        post,
                        step,
                    )
                },
            };
        let p = r->Ok_0;
        assert(r is Ok && p.len() <= data.len() && data.take(p.len() as int) == p);
        let left = data.skip(p.len() as int);
        assert(link.carries(w, (link.key)(t), rest + beyond, left));
        if p.len() > room {
            let x = p.take(room as int);
            assert(data.take(room as int) =~= x);
            assert(post.remaining =~= p.skip(room as int));
            assert(data.skip(room as int).take(post.remaining.len() as int) =~= post.remaining);
            assert(data.skip(room as int).skip(post.remaining.len() as int) =~= left);
            x
        } else {
            let y = lemma_delivered(
                link,
                w,
                Flow { transform: t, incoming: rest, ..pre },
                out + p,
                (room - p.len()) as nat,
                true,
                post,
                step,
                beyond,
                left,
            );
            let x = p + y;
            assert(out + x =~= out + p + y);
            assert(data.take(x.len() as int) =~= x) by {
                assert(data =~= p + left);
                assert(left =~= left.take(y.len() as int) + left.skip(y.len() as int));
            }
            assert(data.skip(x.len() as int) =~= left.skip(y.len() as int));
            if beyond.len() == 0 && room >= data.len() {
                assert(x =~= data);
            }
            x
        }
    }
}

/// A read never fails. It hands out what comes next in what the writer owes, no more
/// than the reader has room for, and what is owed afterwards is the rest. It is done
/// if it has handed out anything.
pub proof fn law_read_is_in_order<U: PacketDataTransform, K>(
    link: Link<U, K>,
    w: Flow<U>,
    r: Flow<U>,
    filled: Seq<u8>,
    wire: Seq<u8>,
    owed: Seq<u8>,
    room: nat,
    r_after: Flow<U>,
    step: ReadStepView,
)
    requires
        link.holds(),
        link.owes(w, r, filled + wire, owed),
        read_filled(r, filled, room, r_after, step),
    ensures
        step.action is Ready || step.action is Wait,
        step.output.len() > 0 ==> step.action is Ready,
        step.output.len() <= room,
        step.output.len() <= owed.len(),
        step.output == owed.take(step.output.len() as int),
        link.owes(w, r_after, wire, owed.skip(step.output.len() as int)),
{
    let n = r.remaining.len() as int;
    let beyond = wire + joined(w.outgoing);
    let got = Flow { incoming: r.incoming + filled, ..r };
    assert(r.incoming + (filled + wire) + joined(w.outgoing) =~= got.incoming + beyond);
    let data = owed.skip(n);
    if n > room {
        let room = room as int;
        let kept = owed.skip(room);
        assert(owed.take(room) =~= r.remaining.take(room));
        assert(kept.take(n - room) =~= r.remaining.skip(room));
        assert(kept.skip(n - room) =~= data);
        assert(r_after.incoming + wire + joined(w.outgoing) =~= got.incoming + beyond);
    } else {
        let x = lemma_delivered(
            link,
            w.transform,
            Flow { remaining: seq![], ..got },
            r.remaining,
            (room - n) as nat,
            n > 0,
            r_after,
            step,
            beyond,
            data,
        );
        let len = step.output.len() as int;
        assert(owed =~= r.remaining + data);
        assert(owed.take(len) =~= r.remaining + data.take(x.len() as int));
        assert(owed.skip(len) =~= data.skip(x.len() as int));
        assert(r_after.incoming + wire + joined(w.outgoing) =~= r_after.incoming + beyond);
    }
}

/// Once everything has been written and received, a read with enough room hands
/// out all that is owed.
pub proof fn law_read_gets_all<U: PacketDataTransform, K>(
    link: Link<U, K>,
    w: Flow<U>,
    r: Flow<U>,
    filled: Seq<u8>,
    owed: Seq<u8>,
    room: nat,
    r_after: Flow<U>,
    step: ReadStepView,
)
    requires
        link.holds(),
        link.owes(w, r, filled, owed),
        w.outgoing.len() == 0,
        room >= owed.len(),
        read_filled(r, filled, room, r_after, step),
    ensures
        step.output == owed,
{
    let n = r.remaining.len() as int;
    let got = Flow { incoming: r.incoming + filled, ..r };
    let beyond = Seq::<u8>::empty();
    let data = owed.skip(n);
    assert(joined(w.outgoing) =~= seq![]);
    assert(r.incoming + filled + joined(w.outgoing) =~= got.incoming + beyond);
    let x = lemma_delivered(
        link,
        w.transform,
        Flow { remaining: seq![], ..got },
        r.remaining,
        (room - n) as nat,
        n > 0,
        r_after,
        step,
        beyond,
        data,
    );
    assert(owed =~= r.remaining + data);
}

/// Once everything has been written and received, a read with any room that hands out
/// nothing shows that nothing is owed.
pub proof fn law_no_output_no_debt<U: PacketDataTransform, K>(
    link: Link<U, K>,
    w: Flow<U>,
    r: Flow<U>,
    filled: Seq<u8>,
    owed: Seq<u8>,
    room: nat,
    r_after: Flow<U>,
    step: ReadStepView,
)
    requires
        link.holds(),
        link.owes(w, r, filled, owed),
        w.outgoing.len() == 0,
        room > 0,
        read_filled(r, filled, room, r_after, step),
        step.output.len() == 0,
    ensures
        owed.len() == 0,
{
    let n = r.remaining.len() as int;
    let got = Flow { incoming: r.incoming + filled, ..r };
    let beyond = Seq::<u8>::empty();
    let data = owed.skip(n);
    assert(joined(w.outgoing) =~= seq![]);
    assert(r.incoming + filled + joined(w.outgoing) =~= got.incoming + beyond);
    let x = lemma_delivered(
        link,
        w.transform,
        Flow { remaining: seq![], ..got },
        r.remaining,
        (room - n) as nat,
        n > 0,
        r_after,
        step,
        beyond,
        data,
    );
    assert(owed =~= r.remaining + data);
}

/// Two packet layers whose transforms are linked owe each other nothing to begin
/// with.
pub proof fn law_nothing_owed_at_first<U: PacketDataTransform, K>(
    link: Link<U, K>,
    w: Flow<U>,
    r: Flow<U>,
)
    requires
        (link.linked)(w.transform, (link.key)(r.transform)),
        w.outgoing.len() == 0,
        r.incoming.len() == 0,
        r.remaining.len() == 0,
    ensures
        link.owes(w, r, seq![], seq![]),
{
    let none = Seq::<u8>::empty();
    assert(joined(w.outgoing) =~= none);
    assert(none.take(0) =~= r.remaining);
    assert(none.skip(0) =~= none);
    assert((r.incoming + none + joined(w.outgoing)).len() == 0);
}

/// A writer's transform may change without a trace in what is carried, if it stays
/// linked with whatever it was linked with.
proof fn lemma_writer_replaced<U: PacketDataTransform, K>(
    link: Link<U, K>,
    w: U,
    w1: U,
    k: K,
    bytes: Seq<u8>,
    data: Seq<u8>,
)
    requires
        link.carries(w, k, bytes, data),
        forall|k: K| #[trigger] (link.linked)(w, k) ==> (link.linked)(w1, k),
    ensures
        link.carries(w1, k, bytes, data),
    decreases bytes.len(),
{
    if bytes.len() > 0 {
        let m = first_message(bytes)->0;
        assert forall|r: U, t: U, res: Result<Seq<u8>, TransformError>|
            (link.key)(r) == k && #[trigger] r.reads(m.data, &t, res) implies {
            &&& res matches Ok(p)
            &&& p.len() <= data.len()
            &&& data.take(p.len() as int) == p
            &&& link.carries(
                w1,
                (link.key)(t),
                bytes.skip(m.size as int),
                data.skip(p.len() as int),
            )
        } by {
            let p = res->Ok_0;
            lemma_writer_replaced(
                link,
                w,
                w1,
                (link.key)(t),
                bytes.skip(m.size as int),
                data.skip(p.len() as int),
            );
        }
    }
}

/// Traffic the other way does not change what is owed, where it leaves alone what
/// decides how the reader reads and what the writer is linked with.
pub proof fn law_directions_are_separate<U: PacketDataTransform, K>(
    link: Link<U, K>,
    w: Flow<U>,
    r: Flow<U>,
    wire: Seq<u8>,
    owed: Seq<u8>,
    w_after: Flow<U>,
    r_after: Flow<U>,
)
    requires
        link.owes(w, r, wire, owed),
        w_after.outgoing == w.outgoing,
        forall|k: K| #[trigger]
            (link.linked)(w.transform, k) ==> (link.linked)(w_after.transform, k),
        (link.key)(r_after.transform) == (link.key)(r.transform),
        r_after.incoming == r.incoming,
        r_after.remaining == r.remaining,
    ensures
        link.owes(w_after, r_after, wire, owed),
{
    lemma_writer_replaced(
        link,
        w.transform,
        w_after.transform,
        (link.key)(r.transform),
        r.incoming + wire + joined(w.outgoing),
        owed.skip(r.remaining.len() as int),
    );
}

/// A transform takes any `n` payloads within its limit, one after the other.
pub open spec fn takes<U: PacketDataTransform>(t: U, n: nat) -> bool
    decreases n,
{
    n > 0 ==> {
        &&& t.intact()
        &&& forall|payload: Seq<u8>, t1: U, r: Result<Seq<u8>, TransformError>|
            #[trigger] t.writes(payload, &t1, r) && 0 < payload.len() && within(
                t.payload_limit(),
                payload.len(),
            ) ==> r is Ok && takes(t1, (n - 1) as nat)
    }
}

/// A payload of this length is within the limit.
pub open spec fn within(limit: Option<usize>, len: nat) -> bool {
    limit matches Some(most) ==> most > 0 ==> len <= most
}

/// A transform that takes enough payloads takes fewer, too.
proof fn lemma_takes_fewer<U: PacketDataTransform>(t: U, n: nat, m: nat)
    requires
        takes(t, n),
        m <= n,
    ensures
        takes(t, m),
    decreases n,
{
    if m > 0 {
        assert forall|payload: Seq<u8>, t1: U, r: Result<Seq<u8>, TransformError>|
            #[trigger] t.writes(payload, &t1, r) && 0 < payload.len() && within(
                t.payload_limit(),
                payload.len(),
            ) implies r is Ok && takes(t1, (m - 1) as nat) by {
            lemma_takes_fewer(t1, (n - 1) as nat, (m - 1) as nat);
        }
    }
}

/// Data that is encoded with a transform that takes enough is not refused.
proof fn lemma_encoded_is_taken<U: PacketDataTransform>(
    w: Flow<U>,
    buf: Seq<u8>,
    post: Flow<U>,
    refusal: Option<Refusal>,
)
    requires
        takes(w.transform, buf.len()),
        encoded(w, buf, post, refusal),
    ensures
        refusal is None,
    decreases buf.len(),
{
    if buf.len() > 0 {
        let n = chunk_len(w.transform, buf);
        let (t, r) = choose|t: U, r: Result<Seq<u8>, TransformError>| #[trigger]
            w.transform.writes(buf.take(n as int), &t, r) && match r {
                Err(e) => {
                    &&& post == Flow { transform: t, ..w }
                    &&& refusal == Some(Refusal::Refused(e))
                },
                Ok(msg) => encoded(
                    Flow { transform: t, outgoing: w.outgoing + packets(msg, false), ..w },
                    buf.skip(n as int),
                    post,
                    refusal,
                ),
            };
        assert(within(w.transform.payload_limit(), buf.take(n as int).len()));
        assert(r is Ok);
        lemma_takes_fewer(t, (buf.len() - 1) as nat, (buf.len() - n) as nat);
        lemma_encoded_is_taken(
            Flow { transform: t, outgoing: w.outgoing + packets(r->Ok_0, false), ..w },
            buf.skip(n as int),
            post,
            refusal,
        );
    }
}

/// Outside the handshake, a write of any length is accepted, if the transform takes
/// payloads within its limit.
pub proof fn law_write_is_accepted<U: PacketDataTransform>(
    w: Flow<U>,
    buf: Seq<u8>,
    w_after: Flow<U>,
    wake: bool,
    action: WriteActionView,
)
    requires
        !w.transform.in_handshake(),
        takes(w.transform, buf.len()),
        write_begun(w, buf, w_after, wake, action),
    ensures
        action is Write || action is Ready,
{
    if buf.len() > 0 {
        match action {
            WriteActionView::Poisoned => {
                lemma_encoded_is_taken(w, buf, w_after, Some(Refusal::Poisoned));
            },
            WriteActionView::Fail(PacketError::Message(e)) => {
                lemma_encoded_is_taken(w, buf, w_after, Some(Refusal::Refused(e)));
            },
            _ => {},
        }
    }
}

// ---------------------------------------------------------------------------
// The handshake
// ---------------------------------------------------------------------------

/// During the handshake a read hands out no data, but for what is left over from
/// an earlier read.
pub proof fn law_no_data_in_handshake<U: PacketDataTransform>(
    r: Flow<U>,
    filled: Seq<u8>,
    room: nat,
    r_after: Flow<U>,
    step: ReadStepView,
)
    requires
        r.transform.in_handshake(),
        read_filled(r, filled, room, r_after, step),
    ensures
        r.remaining.len() <= room ==> step.output == r.remaining,
        r.remaining.len() > room ==> step.output == r.remaining.take(room as int),
{
}

/// As long as part of a handshake message is missing, the reader waits for it.
pub proof fn law_handshake_message_awaited<U: PacketDataTransform>(
    r: Flow<U>,
    filled: Seq<u8>,
    missing: Seq<u8>,
    msg: Seq<u8>,
    room: nat,
    r_after: Flow<U>,
    step: ReadStepView,
)
    requires
        r.transform.in_handshake(),
        r.remaining.len() == 0,
        msg.len() > 0,
        r.incoming + filled + missing == joined(packets(msg, true)),
        missing.len() > 0,
        read_filled(r, filled, room, r_after, step),
    ensures
        r_after == (Flow { incoming: r.incoming + filled, ..r }),
        step == (ReadStepView { output: seq![], wake: true, action: ReadActionView::Wait }),
{
    let got = r.incoming + filled;
    law_message_round_trip(msg, true, seq![]);
    assert(joined(packets(msg, true)) + Seq::<u8>::empty() =~= got + missing);
    if first_message(got) is Some {
        law_first_message_stable(got, missing);
    }
    assert(r.remaining =~= seq![]);
}

/// A handshake message that has fully arrived is given to the transform whole, and
/// nothing of what follows it is touched.
pub proof fn law_handshake_message_arrives<U: PacketDataTransform>(
    r: Flow<U>,
    filled: Seq<u8>,
    msg: Seq<u8>,
    rest: Seq<u8>,
    room: nat,
    r_after: Flow<U>,
    step: ReadStepView,
)
    requires
        r.transform.in_handshake(),
        r.remaining.len() == 0,
        msg.len() > 0,
        r.incoming + filled == joined(packets(msg, true)) + rest,
        read_filled(r, filled, room, r_after, step),
    ensures
        replied(
            Flow { incoming: r.incoming + filled, ..r },
            msg,
            rest,
            Phase::Reply,
            seq![],
            r_after,
            step,
        ),
{
    let got = r.incoming + filled;
    law_message_round_trip(msg, true, rest);
    let m = first_message(got)->0;
    assert(m.all_handshake());
    assert(got.skip(m.size as int) =~= rest);
    assert(r.remaining =~= seq![]);
    assert(Flow { incoming: got, remaining: Seq::<u8>::empty(), ..r } =~= Flow {
        incoming: got,
        ..r
    });
}

/// Data that arrives during the handshake is refused, and stays where it is.
pub proof fn law_data_refused_in_handshake<U: PacketDataTransform>(
    r: Flow<U>,
    filled: Seq<u8>,
    msg: Seq<u8>,
    rest: Seq<u8>,
    room: nat,
    r_after: Flow<U>,
    step: ReadStepView,
)
    requires
        r.transform.in_handshake(),
        r.remaining.len() == 0,
        msg.len() > 0,
        r.incoming + filled == joined(packets(msg, false)) + rest,
        read_filled(r, filled, room, r_after, step),
    ensures
        step.action == ReadActionView::Fail(PacketError::DataInHandshake),
        step.output.len() == 0,
        r_after == (Flow { incoming: r.incoming + filled, ..r }),
{
    law_message_round_trip(msg, false, rest);
    let m = first_message(r.incoming + filled)->0;
    law_first_message_stable(r.incoming + filled, seq![]);
    assert(!m.marks[0]);
    assert(r.remaining =~= seq![]);
}

/// A handshake message that arrives after the handshake is refused, and stays where
/// it is.
pub proof fn law_handshake_refused_in_data<U: PacketDataTransform>(
    r: Flow<U>,
    filled: Seq<u8>,
    msg: Seq<u8>,
    rest: Seq<u8>,
    room: nat,
    r_after: Flow<U>,
    step: ReadStepView,
)
    requires
        !r.transform.in_handshake(),
        r.remaining.len() == 0,
        msg.len() > 0,
        r.incoming + filled == joined(packets(msg, true)) + rest,
        read_filled(r, filled, room, r_after, step),
    ensures
        step.action == ReadActionView::Fail(PacketError::HandshakeInData),
        step.output.len() == 0,
        r_after == (Flow { incoming: r.incoming + filled, ..r }),
{
    law_message_round_trip(msg, true, rest);
    let m = first_message(r.incoming + filled)->0;
    law_first_message_stable(r.incoming + filled, seq![]);
    assert(m.marks[0]);
    assert(r.remaining =~= seq![]);
}

/// Delivery that ends in waiting, with no reason to wake up, has nothing left to do.
proof fn lemma_delivered_waits<U: PacketDataTransform>(
    pre: Flow<U>,
    out: Seq<u8>,
    room: nat,
    wrote: bool,
    post: Flow<U>,
    step: ReadStepView,
)
    requires
        delivered(pre, out, room, wrote, post, step),
        step.action is Wait,
        !step.wake,
    ensures
        !post.transform.in_handshake(),
        post.incoming.len() == 0,
        post.remaining == pre.remaining,
        step.output == out,
    decreases pre.incoming.len(),
{
    if first_message(pre.incoming) is Some {
        let m = first_message(pre.incoming)->0;
        law_first_message_stable(pre.incoming, seq![]);
        let rest = pre.incoming.skip(m.size as int);
        if !pre.transform.in_handshake() && !m.any_handshake() && pre.transform.intact() {
            let (t, payload) = choose|t: U, payload: Seq<u8>| #[trigger]
                pre.transform.reads(m.data, &t, Ok(payload)) && delivered(
                    Flow { transform: t, incoming: rest, ..pre },
                    out + payload,
                    (room - payload.len()) as nat,
                    true,
                    post,
                    step,
                );
            lemma_delivered_never_waits(
                Flow { transform: t, incoming: rest, ..pre },
                out + payload,
                (room - payload.len()) as nat,
                post,
                step,
            );
        }
    }
}

/// Once something has been handed out, outside the handshake, a read does not wait
/// without a reason to wake up.
proof fn lemma_delivered_never_waits<U: PacketDataTransform>(
    pre: Flow<U>,
    out: Seq<u8>,
    room: nat,
    post: Flow<U>,
    step: ReadStepView,
)
    requires
        delivered(pre, out, room, true, post, step),
    ensures
        !(step.action is Wait) || step.wake,
    decreases pre.incoming.len(),
{
    if first_message(pre.incoming) is Some {
        let m = first_message(pre.incoming)->0;
        law_first_message_stable(pre.incoming, seq![]);
        let rest = pre.incoming.skip(m.size as int);
        if !pre.transform.in_handshake() && !m.any_handshake() && pre.transform.intact()
            && step.action is Wait {
            let (t, payload) = choose|t: U, payload: Seq<u8>| #[trigger]
                pre.transform.reads(m.data, &t, Ok(payload)) && delivered(
                    Flow { transform: t, incoming: rest, ..pre },
                    out + payload,
                    (room - payload.len()) as nat,
                    true,
                    post,
                    step,
                );
            lemma_delivered_never_waits(
                Flow { transform: t, incoming: rest, ..pre },
                out + payload,
                (room - payload.len()) as nat,
                post,
                step,
            );
        }
    }
}

/// A read that waits without being woken up again is past the handshake, has nothing
/// left of what was received, and has handed out nothing.
pub proof fn law_waiting_is_woken<U: PacketDataTransform>(
    r: Flow<U>,
    filled: Seq<u8>,
    room: nat,
    r_after: Flow<U>,
    step: ReadStepView,
)
    requires
        read_filled(r, filled, room, r_after, step),
        step.action is Wait,
        !step.wake,
    ensures
        !r_after.transform.in_handshake(),
        r_after.incoming.len() == 0,
        r_after.remaining.len() == 0,
        step.output.len() == 0,
{
    let got = Flow { incoming: r.incoming + filled, remaining: Seq::<u8>::empty(), ..r };
    let left = (room - r.remaining.len()) as nat;
    if r.remaining.len() > 0 {
        lemma_delivered_never_waits(got, r.remaining, left, r_after, step);
    } else {
        lemma_delivered_waits(got, r.remaining, left, false, r_after, step);
    }
}

} // verus!
