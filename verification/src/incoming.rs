//! The packets that have been received.
use crate::frame::{
    announced_len, at_most_one, complete, continuation_packet, continued, first_message,
    handshake_packet, joined, law_joined_concat, lemma_joined_one, of_handshake, packet_len,
    views, Message, HEADER_LEN,
};
use std::collections::VecDeque;
use vstd::prelude::*;
use vstd::slice::slice_subrange;

verus! {

/// Every packet holds something, and only the last may be incomplete.
pub open spec fn in_order(packets: Seq<Seq<u8>>) -> bool {
    &&& forall|i: int| 0 <= i < packets.len() ==> (#[trigger] packets[i]).len() > 0
    &&& forall|i: int| 0 <= i < packets.len() - 1 ==> complete(#[trigger] packets[i])
    &&& packets.len() > 0 ==> at_most_one(packets.last())
}

/// Received bytes, kept as packets.
#[derive(Debug)]
pub struct Received {
    /// the last packet in this list may be incomplete
    packets: VecDeque<Vec<u8>>,
}

impl View for Received {
    type V = Seq<u8>;

    closed spec fn view(&self) -> Seq<u8> {
        joined(views(self.packets@))
    }
}

impl Received {
    #[verifier::type_invariant]
    closed spec fn packets_in_order(&self) -> bool {
        in_order(views(self.packets@))
    }

    /// The packets, the last of which may be incomplete.
    pub closed spec fn packets(&self) -> Seq<Seq<u8>> {
        views(self.packets@)
    }

    /// The bytes are kept as packets, each of the length that its header states but
    /// for the last, which is no longer than that. No received bytes break this.
    pub open spec fn framed(&self) -> bool {
        &&& in_order(self.packets())
        &&& joined(self.packets()) == self@
    }

    /// The first `n` packets take up `size` bytes.
    pub open spec fn starts_with(&self, n: usize, size: nat) -> bool {
        &&& n <= self.packets().len()
        &&& joined(self.packets().take(n as int)).len() == size
    }

    /// Nothing received.
    pub fn new() -> (received: Self)
        ensures
            received@ == Seq::<u8>::empty(),
            received.framed(),
    {
        let received = Self { packets: VecDeque::new() };
        assert(received@ =~= seq![]);
        received
    }

    /// Is there nothing?
    pub fn is_empty(&self) -> (b: bool)
        ensures
            b == (self@.len() == 0),
            self.framed(),
    {
        proof {
            use_type_invariant(self);
            if self.packets@.len() > 0 {
                assert(views(self.packets@)[0].len() > 0);
            }
        }
        self.packets.len() == 0
    }

    /// Takes in received bytes.
    pub fn append(&mut self, filled: &[u8])
        ensures
            final(self)@ == old(self)@ + filled@,
            final(self).framed(),
    {
        proof {
            use_type_invariant(&*self);
        }
        let mut packets: VecDeque<Vec<u8>> = VecDeque::new();
        std::mem::swap(&mut self.packets, &mut packets);
        absorb(&mut packets, filled);
        self.packets = packets;
    }

    /// The first message, if it has fully arrived. It stays where it is.
    pub fn first(&self) -> (g: Option<Gathered>)
        ensures
            match (g, first_message(self@)) {
                (None, None) => true,
                (Some(g), Some(m)) => g.stands_for(m) && self.starts_with(g.packets, m.size),
                _ => false,
            },
            self.framed(),
    {
        proof {
            use_type_invariant(self);
        }
        gather(&self.packets)
    }

    /// Drops packets from the front.
    pub fn drop_front(&mut self, n: usize)
        requires
            n <= old(self).packets().len(),
        ensures
            final(self).packets() == old(self).packets().skip(n as int),
            final(self)@ == old(self)@.skip(
                joined(old(self).packets().take(n as int)).len() as int,
            ),
            final(self).framed(),
    {
        proof {
            use_type_invariant(&*self);
        }
        let mut packets: VecDeque<Vec<u8>> = VecDeque::new();
        std::mem::swap(&mut self.packets, &mut packets);
        drop_packets(&mut packets, n);
        self.packets = packets;
    }
}

/// Of packets in order, all but the last have the length that their header states, and
/// the last is either without header or no longer than its header states.
pub proof fn law_packets_are_framed(packets: Seq<Seq<u8>>, i: int)
    requires
        in_order(packets),
        0 <= i < packets.len(),
    ensures
        i < packets.len() - 1 ==> packets[i].len() >= HEADER_LEN && packets[i].len() == HEADER_LEN
            + packets[i][0] * 256 + packets[i][1],
        packets[i].len() < HEADER_LEN || packets[i].len() <= HEADER_LEN + packets[i][0] * 256
            + packets[i][1],
{
    if i == packets.len() - 1 {
        assert(packets.last() == packets[i]);
    }
}

/// Appends received bytes to the last packet, and creates new packets as needed.
fn absorb(queue: &mut VecDeque<Vec<u8>>, filled: &[u8])
    requires
        in_order(views(old(queue)@)),
    ensures
        in_order(views(final(queue)@)),
        joined(views(final(queue)@)) == joined(views(old(queue)@)) + filled@,
{
    let mut at: usize = 0;
    assert(joined(views(queue@)) =~= joined(views(old(queue)@)) + filled@.take(0));
    while at < filled.len()
        invariant
            at <= filled@.len(),
            in_order(views(queue@)),
            joined(views(queue@)) == joined(views(old(queue)@)) + filled@.take(at as int),
        decreases filled@.len() - at,
    {
        let ghost before = views(queue@);
        let left: usize = filled.len() - at;
        let mut last: Vec<u8> = Vec::new();
        let popped = queue.pop_back();
        if let Some(p) = popped {
            if p.len() >= HEADER_LEN && p.len() == announced_len(p.as_slice()) {
                // the last packet is complete, a new one is needed
                queue.push_back(p);
            } else {
                last = p;
            }
        }
        let ghost kept = views(queue@);
        let ghost part = last@;
        proof {
            assert forall|i: int| 0 <= i < kept.len() implies complete(#[trigger] kept[i])
                && kept[i].len() > 0 by {
                assert(kept[i] == before[i]);
            }
            assert(joined(before) == joined(kept) + part) by {
                if part.len() == 0 {
                    assert(kept =~= before);
                    assert(joined(kept) + part =~= joined(before));
                } else {
                    assert(before =~= kept + seq![part]);
                    law_joined_concat(kept, seq![part]);
                    lemma_joined_one(part);
                }
            }
        }
        let need: usize = if last.len() >= HEADER_LEN {
            announced_len(last.as_slice()) - last.len()
        } else {
            // the header comes first
            HEADER_LEN - last.len()
        };
        let size: usize = if left >= need {
            need
        } else {
            left
        };
        let taken = slice_subrange(filled, at, at + size);
        last.extend_from_slice(taken);
        let ghost whole = last@;
        queue.push_back(last);
        proof {
            assert(views(queue@) =~= kept + seq![whole]);
            law_joined_concat(kept, seq![whole]);
            lemma_joined_one(whole);
            assert(whole =~= part + taken@);
            assert(filled@.take(at as int) + taken@ =~= filled@.take(at + size));
            assert(joined(views(queue@)) =~= joined(before) + taken@);
            assert(joined(before) + taken@ =~= joined(views(old(queue)@)) + filled@.take(
                at + size,
            ));
        }
        at = at + size;
    }
    assert(filled@.take(at as int) =~= filled@);
}

/// A message with more packets in front of it.
pub open spec fn continuing(
    data: Seq<u8>,
    marks: Seq<bool>,
    size: nat,
    rest: Option<Message>,
) -> Option<Message> {
    match rest {
        None => None,
        Some(m) => Some(
            Message { data: data + m.data, marks: marks + m.marks, size: size + m.size },
        ),
    }
}

/// How the first message of a stream begins with the first packet.
proof fn lemma_first_packet(packet: Seq<u8>, rest: Seq<u8>)
    requires
        complete(packet),
    ensures
        continued(packet) ==> first_message(packet + rest) == continuing(
            packet.skip(HEADER_LEN as int),
            seq![of_handshake(packet)],
            packet.len(),
            first_message(rest),
        ),
        !continued(packet) ==> first_message(packet + rest) == Some(
            Message {
                data: packet.skip(HEADER_LEN as int),
                marks: seq![of_handshake(packet)],
                size: packet.len(),
            },
        ),
{
    let bytes = packet + rest;
    assert(packet_len(bytes) == packet.len());
    assert(bytes.subrange(HEADER_LEN as int, packet.len() as int) =~= packet.skip(
        HEADER_LEN as int,
    ));
    assert(bytes.skip(packet.len() as int) =~= rest);
}

/// A message that has fully arrived.
pub struct Gathered {
    /// The data of its packets, put together.
    pub data: Vec<u8>,
    /// Every one of its packets is a handshake packet.
    pub all_handshake: bool,
    /// Some of its packets is a handshake packet.
    pub any_handshake: bool,
    /// How many packets it is made of.
    pub packets: usize,
}

impl Gathered {
    /// This is the given message.
    pub open spec fn stands_for(&self, m: Message) -> bool {
        &&& self.data@ == m.data
        &&& self.all_handshake == m.all_handshake()
        &&& self.any_handshake == m.any_handshake()
    }
}

/// Accumulates packet data, taking the continuation flag into account, until a
/// whole message is there.
fn gather(queue: &VecDeque<Vec<u8>>) -> (g: Option<Gathered>)
    requires
        in_order(views(queue@)),
    ensures
        match (g, first_message(joined(views(queue@)))) {
            (None, None) => true,
            (Some(g), Some(m)) => g.stands_for(m) && g.packets <= queue@.len() && joined(
                views(queue@).take(g.packets as int),
            ).len() == m.size,
            _ => false,
        },
{
    let mut data: Vec<u8> = Vec::new();
    let mut all_handshake: bool = true;
    let mut any_handshake: bool = false;
    let mut i: usize = 0;
    let ghost all = views(queue@);
    let ghost mut marks: Seq<bool> = seq![];
    proof {
        assert(all.skip(0) =~= all);
        assert(all.take(0) =~= seq![]);
        let m = first_message(joined(all));
        if m is Some {
            assert(continuing(seq![], seq![], 0, m)->0 =~= m->0);
        }
    }
    while i < queue.len()
        invariant
            all == views(queue@),
            in_order(all),
            i <= queue@.len(),
            first_message(joined(all)) == continuing(
                data@,
                marks,
                joined(all.take(i as int)).len(),
                first_message(joined(all.skip(i as int))),
            ),
            all_handshake == (forall|j: int| 0 <= j < marks.len() ==> marks[j]),
            any_handshake == (exists|j: int| 0 <= j < marks.len() && marks[j]),
        decreases queue@.len() - i,
    {
        let packet = queue[i].as_slice();
        let ghost rest = all.skip(i as int);
        let ghost tail = joined(all.skip(i + 1));
        proof {
            assert(rest.drop_first() =~= all.skip(i + 1));
            assert(joined(rest) == packet@ + tail);
        }
        if packet.len() < HEADER_LEN || packet.len() < announced_len(packet) {
            // not enough of the packet yet
            proof {
                assert(i == all.len() - 1) by {
                    assert(!complete(all[i as int]));
                }
                assert(tail =~= seq![]);
                assert(joined(rest) =~= packet@);
            }
            return None;
        }
        proof {
            assert(complete(packet@)) by {
                assert(packet@ == all[i as int]);
            }
            lemma_first_packet(packet@, tail);
        }
        let ghost data_before = data@;
        let ghost marks_before = marks;
        let ghost size_before = joined(all.take(i as int)).len();
        data.extend_from_slice(slice_subrange(packet, HEADER_LEN, packet.len()));
        let mark = handshake_packet(packet);
        if mark {
            any_handshake = true;
        } else {
            all_handshake = false;
        }
        proof {
            marks = marks.push(mark);
            assert(data@ =~= data_before + packet@.skip(HEADER_LEN as int));
            assert(marks =~= marks_before + seq![mark]);
            assert(marks[marks_before.len() as int] == mark);
            assert(forall|j: int| 0 <= j < marks_before.len() ==> marks[j] == marks_before[j]);
            assert(all.take(i + 1) =~= all.take(i as int) + seq![packet@]);
            law_joined_concat(all.take(i as int), seq![packet@]);
            lemma_joined_one(packet@);
        }
        i = i + 1;
        if !continuation_packet(packet) {
            proof {
                let m = first_message(joined(all))->0;
                assert(m.data =~= data@);
                assert(m.marks =~= marks);
            }
            return Some(Gathered { data, all_handshake, any_handshake, packets: i });
        }
        proof {
            let m = first_message(tail);
            if m is Some {
                let one = continuing(
                    packet@.skip(HEADER_LEN as int),
                    seq![mark],
                    packet@.len(),
                    m,
                );
                assert(continuing(data_before, marks_before, size_before, one)->0 =~= continuing(
                    data@,
                    marks,
                    size_before + packet@.len(),
                    m,
                )->0);
            }
        }
    }
    proof {
        assert(all.skip(i as int) =~= seq![]);
    }
    None
}

/// Drops packets from the front.
fn drop_packets(queue: &mut VecDeque<Vec<u8>>, n: usize)
    requires
        in_order(views(old(queue)@)),
        n <= old(queue)@.len(),
    ensures
        in_order(views(final(queue)@)),
        views(final(queue)@) == views(old(queue)@).skip(n as int),
        joined(views(final(queue)@)) == joined(views(old(queue)@)).skip(
            joined(views(old(queue)@).take(n as int)).len() as int,
        ),
{
    let ghost all = views(queue@);
    let mut i: usize = 0;
    assert(all.skip(0) =~= all);
    while i < n
        invariant
            i <= n <= all.len(),
            in_order(all),
            views(queue@) == all.skip(i as int),
        decreases n - i,
    {
        let ghost before = queue@;
        assert(views(before).len() == all.len() - i);
        let _ = queue.pop_front();
        assert forall|j: int| 0 <= j < queue@.len() implies queue@[j]@ == all[i + 1 + j] by {
            assert(queue@[j] == before[j + 1]);
            assert(views(before)[j + 1] == all[i + 1 + j]);
        }
        assert(views(queue@) =~= all.skip(i + 1));
        i = i + 1;
    }
    proof {
        assert(all =~= all.take(n as int) + all.skip(n as int));
        law_joined_concat(all.take(n as int), all.skip(n as int));
        assert(joined(all).skip(joined(all.take(n as int)).len() as int) =~= joined(
            all.skip(n as int),
        ));
        let left = all.skip(n as int);
        assert forall|j: int| 0 <= j < left.len() implies (#[trigger] left[j]).len() > 0 && (j
            < left.len() - 1 ==> complete(left[j])) by {
            assert(left[j] == all[n + j]);
        }
        if left.len() > 0 {
            assert(left.last() == all.last());
        }
    }
}

} // verus!
