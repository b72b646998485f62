//! The wire format, byte by byte.
use crate::frame::{
    announced_len, continuation_packet, continued, first_message, handshake_packet, joined,
    law_drop_bytes_is_skip, law_joined_concat, lemma_joined_one, of_handshake, packet, packet_len,
    packets, views, Message,
};
use crate::incoming::{Gathered, Received};
use crate::outgoing::{big_write, drop_written, push_packets};
use vstd::prelude::*;

verus! {

/// Bit 0 of the metadata byte is on where that byte is odd, bit 1 where half of it is.
proof fn lemma_flags(b: u8)
    ensures
        (b & 1u8 == 1u8) <==> b % 2 == 1,
        (b & 2u8 == 2u8) <==> (b / 2) % 2 == 1,
{
    assert((b & 1u8 == 1u8) <==> b % 2 == 1) by (bit_vector);
    assert((b & 2u8 == 2u8) <==> (b / 2) % 2 == 1) by (bit_vector);
}

/// A packet says that its message goes on in bit 0 of its third byte.
pub proof fn law_continuation_flag(bytes: &[u8], b: bool)
    requires
        bytes@.len() >= 3,
        call_ensures(continuation_packet, (bytes,), b),
    ensures
        b <==> bytes@[2] % 2 == 1,
{
    lemma_flags(bytes@[2]);
}

/// A packet says that it belongs to a handshake in bit 1 of its third byte.
pub proof fn law_handshake_flag(bytes: &[u8], b: bool)
    requires
        bytes@.len() >= 3,
        call_ensures(handshake_packet, (bytes,), b),
    ensures
        b <==> (bytes@[2] / 2) % 2 == 1,
{
    lemma_flags(bytes@[2]);
}

/// A packet is three bytes longer than the big-endian number in its first two.
pub proof fn law_announced_len(bytes: &[u8], len: usize)
    requires
        bytes@.len() >= 2,
        call_ensures(announced_len, (bytes,), len),
    ensures
        len == 3 + 256 * bytes@[0] + bytes@[1],
{
}

/// Where the bytes of a message stand in its packets.
proof fn lemma_packet_bytes(data: Seq<u8>, handshake: bool, i: int)
    requires
        0 <= i < packets(data, handshake).len(),
    ensures
        ({
            let cut = packets(data, handshake);
            let from = i * 65532;
            let to = if i < cut.len() - 1 {
                from + 65532
            } else {
                data.len() as int
            };
            let p = cut[i];
            &&& from < to <= data.len()
            &&& to - from <= 65532
            &&& p.len() == 3 + (to - from)
            &&& 256 * p[0] + p[1] == to - from
            &&& p[2] == (if i < cut.len() - 1 {
                1int
            } else {
                0
            }) + (if handshake {
                2int
            } else {
                0
            })
            &&& p.skip(3) == data.subrange(from, to)
        }),
    decreases data.len(),
{
    let cut = packets(data, handshake);
    if data.len() <= 65532 {
        let p = packet(data, false, handshake);
        assert(p.skip(3) =~= data.subrange(0, data.len() as int));
        assert((data.len() / 256) * 256 + data.len() % 256 == data.len());
    } else {
        let head = data.take(65532);
        let tail = data.skip(65532);
        assert(packets(tail, handshake).len() > 0);
        if i == 0 {
            let p = packet(head, true, handshake);
            assert(p.skip(3) =~= data.subrange(0, 65532));
        } else {
            lemma_packet_bytes(tail, handshake, i - 1);
            let p = packets(tail, handshake)[i - 1];
            assert(cut[i] == p);
            let from = (i - 1) * 65532;
            let to = if i < cut.len() - 1 {
                from + 65532
            } else {
                tail.len() as int
            };
            assert(tail.subrange(from, to) =~= data.subrange(from + 65532, to + 65532));
        }
    }
}

/// How many packets a message takes.
proof fn lemma_packet_count(data: Seq<u8>, handshake: bool)
    ensures
        (packets(data, handshake).len() - 1) * 65532 < data.len() || data.len() == 0,
        data.len() <= packets(data, handshake).len() * 65532,
        data.len() == 0 ==> packets(data, handshake).len() == 0,
    decreases data.len(),
{
    if data.len() > 65532 {
        lemma_packet_count(data.skip(65532), handshake);
    }
}

/// A message is cut into as few packets as can be, which go to the end of the queue.
/// What was queued before stays as it was.
pub proof fn law_packets_are_queued(
    queue: &mut Vec<Vec<u8>>,
    data: &[u8],
    handshake: bool,
    r: (),
    i: int,
)
    requires
        call_ensures(push_packets, (queue, data, handshake), r),
    ensures
        ({
            let n = final(queue)@.len() - old(queue)@.len();
            &&& n >= 0
            &&& data@.len() <= n * 65532
            &&& data@.len() > 0 ==> (n - 1) * 65532 < data@.len()
            &&& data@.len() == 0 ==> n == 0
        }),
        0 <= i < old(queue)@.len() ==> final(queue)@[i]@ == old(queue)@[i]@,
{
    lemma_packet_count(data@, handshake);
    let before = views(old(queue)@);
    let after = views(final(queue)@);
    assert(after == before + packets(data@, handshake));
    assert(after.len() == final(queue)@.len());
    if 0 <= i < old(queue)@.len() {
        assert(after[i] == before[i]);
    }
}

/// Each new packet is the length of its data, as a big-endian number, a byte with the
/// flags, and the next 65532 bytes of the message, or what is left of it in the last.
pub proof fn law_packet_layout(
    queue: &mut Vec<Vec<u8>>,
    data: &[u8],
    handshake: bool,
    r: (),
    i: int,
)
    requires
        call_ensures(push_packets, (queue, data, handshake), r),
        0 <= i < final(queue)@.len() - old(queue)@.len(),
    ensures
        ({
            let n = final(queue)@.len() - old(queue)@.len();
            let p = final(queue)@[old(queue)@.len() + i]@;
            let from = i * 65532;
            let to = if i < n - 1 {
                from + 65532
            } else {
                data@.len() as int
            };
            &&& from < to <= data@.len()
            &&& p.len() == 3 + (to - from)
            &&& 256 * p[0] + p[1] == to - from
            &&& p[2] == (if i < n - 1 {
                1int
            } else {
                0
            }) + (if handshake {
                2int
            } else {
                0
            })
            &&& p.skip(3) == data@.subrange(from, to)
        }),
{
    let before = views(old(queue)@);
    let after = views(final(queue)@);
    assert(after == before + packets(data@, handshake));
    assert(after.len() == final(queue)@.len());
    lemma_packet_bytes(data@, handshake, i);
    assert(after[old(queue)@.len() + i] == packets(data@, handshake)[i]);
}

/// One big write holds the packets of the queue one after the other: nothing for an
/// empty queue, the packet for a queue of one, and of two queues put together the
/// bytes of the one and then of the other.
pub proof fn law_one_big_write(
    queue: &Vec<Vec<u8>>,
    bytes: Vec<u8>,
    first: &Vec<Vec<u8>>,
    first_bytes: Vec<u8>,
    second: &Vec<Vec<u8>>,
    second_bytes: Vec<u8>,
)
    requires
        call_ensures(big_write, (queue,), bytes),
        call_ensures(big_write, (first,), first_bytes),
        call_ensures(big_write, (second,), second_bytes),
    ensures
        queue@.len() == 0 ==> bytes@.len() == 0,
        queue@.len() == 1 ==> bytes@ == queue@[0]@,
        queue@ == first@ + second@ ==> bytes@ == first_bytes@ + second_bytes@,
{
    if queue@.len() == 1 {
        lemma_joined_one(queue@[0]@);
        assert(views(queue@) =~= seq![queue@[0]@]);
    }
    if queue@ == first@ + second@ {
        assert(views(queue@) =~= views(first@) + views(second@));
        law_joined_concat(views(first@), views(second@));
    }
}

/// Written bytes leave from the front: the next big write holds the others.
pub proof fn law_written_bytes_leave(
    queue: &mut Vec<Vec<u8>>,
    n: usize,
    r: (),
    before: &Vec<Vec<u8>>,
    before_bytes: Vec<u8>,
    after: &Vec<Vec<u8>>,
    after_bytes: Vec<u8>,
)
    requires
        call_ensures(drop_written, (queue, n), r),
        *before == *old(queue),
        *after == *final(queue),
        call_ensures(big_write, (before,), before_bytes),
        call_ensures(big_write, (after,), after_bytes),
    ensures
        n <= before_bytes@.len() ==> after_bytes@ == before_bytes@.skip(n as int),
        n >= before_bytes@.len() ==> after@.len() == 0,
{
    law_drop_bytes_is_skip(views(old(queue)@), n as nat);
    assert(views(after@).len() == after@.len());
}

/// The first message of a stream that begins with a row of packets, of which all but the
/// last are continued, is their data put together, with the handshake flag of each, and
/// takes up just their bytes.
pub proof fn law_row_of_packets_is_a_message(row: Seq<Seq<u8>>, rest: Seq<u8>)
    requires
        row.len() > 0,
        forall|i: int|
            0 <= i < row.len() ==> (#[trigger] row[i]).len() >= 3 && row[i].len() == 3 + 256
                * row[i][0] + row[i][1],
        forall|i: int|
            0 <= i < row.len() ==> ((#[trigger] row[i])[2] % 2 == 1 <==> i < row.len() - 1),
    ensures
        first_message(joined(row) + rest) == Some(
            Message {
                data: joined(Seq::new(row.len(), |i: int| row[i].skip(3))),
                marks: Seq::new(row.len(), |i: int| (row[i][2] / 2) % 2 == 1),
                size: joined(row).len(),
            },
        ),
    decreases row.len(),
{
    let p = row[0];
    let others = row.drop_first();
    let bytes = joined(row) + rest;
    let bodies = Seq::new(row.len(), |i: int| row[i].skip(3));
    let marks = Seq::new(row.len(), |i: int| (row[i][2] / 2) % 2 == 1);
    assert(bytes =~= p + (joined(others) + rest));
    assert(packet_len(bytes) == p.len());
    assert(bytes.subrange(3, p.len() as int) =~= p.skip(3));
    assert(bytes.skip(p.len() as int) =~= joined(others) + rest);
    lemma_flags(p[2]);
    assert(continued(bytes) == (p[2] % 2 == 1));
    assert(of_handshake(bytes) == ((p[2] / 2) % 2 == 1));
    assert(joined(bodies) == bodies[0] + joined(bodies.drop_first()));
    if row.len() == 1 {
        assert(others =~= seq![]);
        assert(bodies.drop_first() =~= seq![]);
        assert(joined(bodies) =~= p.skip(3));
        assert(joined(row) =~= p);
        assert(marks =~= seq![(p[2] / 2) % 2 == 1]);
    } else {
        assert forall|i: int| 0 <= i < others.len() implies (#[trigger] others[i]).len() >= 3
            && others[i].len() == 3 + 256 * others[i][0] + others[i][1] && (others[i][2] % 2 == 1
            <==> i < others.len() - 1) by {
            assert(others[i] == row[i + 1]);
        }
        law_row_of_packets_is_a_message(others, rest);
        assert(bodies.drop_first() =~= Seq::new(others.len(), |i: int| others[i].skip(3)));
        assert(marks =~= seq![(p[2] / 2) % 2 == 1] + Seq::new(
            others.len(),
            |i: int| (others[i][2] / 2) % 2 == 1,
        ));
    }
}

/// The first message that was received is the data of the packets up to and with the
/// first that is not continued, put together; it is known which of them are handshake
/// packets. Dropping it leaves what follows.
pub proof fn law_first_message_received(
    received: &Received,
    g: Option<Gathered>,
    row: Seq<Seq<u8>>,
    rest: Seq<u8>,
    later: &mut Received,
    r: (),
)
    requires
        row.len() > 0,
        forall|i: int|
            0 <= i < row.len() ==> (#[trigger] row[i]).len() >= 3 && row[i].len() == 3 + 256
                * row[i][0] + row[i][1],
        forall|i: int|
            0 <= i < row.len() ==> ((#[trigger] row[i])[2] % 2 == 1 <==> i < row.len() - 1),
        received@ == joined(row) + rest,
        call_ensures(Received::first, (received,), g),
        *old(later) == *received,
        g is Some ==> call_ensures(Received::drop_front, (later, g->0.packets), r),
    ensures
        g is Some,
        g->0.data@ == joined(Seq::new(row.len(), |i: int| row[i].skip(3))),
        g->0.all_handshake <==> forall|i: int|
            0 <= i < row.len() ==> ((#[trigger] row[i])[2] / 2) % 2 == 1,
        g->0.any_handshake <==> exists|i: int|
            0 <= i < row.len() && ((#[trigger] row[i])[2] / 2) % 2 == 1,
        final(later)@ == rest,
{
    law_row_of_packets_is_a_message(row, rest);
    let m = first_message(received@)->0;
    assert(old(later).starts_with(g->0.packets, m.size));
    assert((joined(row) + rest).skip(joined(row).len() as int) =~= rest);
    assert forall|i: int| 0 <= i < row.len() implies m.marks[i] == (((#[trigger] row[i])[2] / 2) % 2
        == 1) by {}
    if m.any_handshake() {
        let i = choose|i: int| 0 <= i < m.marks.len() && m.marks[i];
        assert((row[i][2] / 2) % 2 == 1);
    }
    if exists|i: int| 0 <= i < row.len() && ((#[trigger] row[i])[2] / 2) % 2 == 1 {
        let i = choose|i: int| 0 <= i < row.len() && ((#[trigger] row[i])[2] / 2) % 2 == 1;
        assert(m.marks[i]);
    }
    if m.all_handshake() {
        assert forall|i: int| 0 <= i < row.len() implies ((#[trigger] row[i])[2] / 2) % 2 == 1 by {
            assert(m.marks[i]);
        }
    }
}

/// A stream of packets that are all continued, and that ends before the next is complete,
/// holds no message yet.
pub proof fn law_unfinished_row_is_no_message(row: Seq<Seq<u8>>, tail: Seq<u8>)
    requires
        forall|i: int|
            0 <= i < row.len() ==> (#[trigger] row[i]).len() >= 3 && row[i].len() == 3 + 256
                * row[i][0] + row[i][1] && row[i][2] % 2 == 1,
        tail.len() < 3 || tail.len() < 3 + 256 * tail[0] + tail[1],
    ensures
        first_message(joined(row) + tail) is None,
    decreases row.len(),
{
    let bytes = joined(row) + tail;
    if row.len() == 0 {
        assert(bytes =~= tail);
    } else {
        let p = row[0];
        let others = row.drop_first();
        assert(bytes =~= p + (joined(others) + tail));
        assert(packet_len(bytes) == p.len());
        assert(bytes.skip(p.len() as int) =~= joined(others) + tail);
        lemma_flags(p[2]);
        assert forall|i: int| 0 <= i < others.len() implies (#[trigger] others[i]).len() >= 3
            && others[i].len() == 3 + 256 * others[i][0] + others[i][1] && others[i][2] % 2
            == 1 by {
            assert(others[i] == row[i + 1]);
        }
        law_unfinished_row_is_no_message(others, tail);
    }
}

/// There is no message as long as every packet that has fully arrived is continued.
pub proof fn law_no_message_received(
    received: &Received,
    g: Option<Gathered>,
    row: Seq<Seq<u8>>,
    tail: Seq<u8>,
)
    requires
        forall|i: int|
            0 <= i < row.len() ==> (#[trigger] row[i]).len() >= 3 && row[i].len() == 3 + 256
                * row[i][0] + row[i][1] && row[i][2] % 2 == 1,
        tail.len() < 3 || tail.len() < 3 + 256 * tail[0] + tail[1],
        received@ == joined(row) + tail,
        call_ensures(Received::first, (received,), g),
    ensures
        g is None,
{
    law_unfinished_row_is_no_message(row, tail);
}

/// To begin with nothing has been received. Received bytes are kept in the order in which
/// they arrive.
pub proof fn law_received_bytes_are_kept(
    fresh: Received,
    received: &mut Received,
    filled: &[u8],
    r: (),
    empty: bool,
)
    requires
        call_ensures(Received::new, (), fresh),
        call_ensures(Received::append, (received, filled), r),
        call_ensures(Received::is_empty, (&*old(received),), empty),
    ensures
        fresh@.len() == 0,
        final(received)@ == old(received)@ + filled@,
        empty <==> old(received)@ == Seq::<u8>::empty(),
{
    assert(old(received)@.len() == 0 ==> old(received)@ =~= Seq::<u8>::empty());
}

} // verus!
