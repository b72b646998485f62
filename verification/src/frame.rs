//! The wire format: how a message is cut into packets, and how a stream of
//! bytes is read back as packets and messages.
//!
//! A packet is a big-endian `u16` data length, one metadata byte, and the data.
//! In the metadata byte, bit 0 says that the message goes on in the next packet
//! and bit 1 that the packet belongs to a handshake.
use vstd::prelude::*;

verus! {

/// Upper bound on the size of one packet.
pub const MAX_FRAME_LEN: usize = 65535;

/// The first bytes store the data length.
pub const DATA_LEN: usize = 2;

/// The header is the data length, plus a metadata byte.
pub const HEADER_LEN: usize = 3;

/// Where the metadata byte stands.
pub const METADATA_BYTE_OFFSET: usize = 2;

/// Upper bound on the data in one packet.
pub const MAX_DATA_LEN: usize = 65532;

/// Set on every packet of a message but the last.
pub const CONTINUATION_FLAG: u8 = 0x01;

/// Set on every packet of a handshake message.
pub const HANDSHAKE_FLAG: u8 = 0x02;

// ---------------------------------------------------------------------------
// Model
// ---------------------------------------------------------------------------

/// The metadata byte with the given flags.
pub open spec fn metadata(continued: bool, handshake: bool) -> u8 {
    if continued {
        if handshake { 3 } else { 1 }
    } else {
        if handshake { 2 } else { 0 }
    }
}

/// One packet that carries `data`.
pub open spec fn packet(data: Seq<u8>, continued: bool, handshake: bool) -> Seq<u8> {
    seq![(data.len() / 256) as u8, (data.len() % 256) as u8, metadata(continued, handshake)] + data
}

/// The packets that carry `data` as one message. An empty message has none.
pub open spec fn packets(data: Seq<u8>, handshake: bool) -> Seq<Seq<u8>>
    decreases data.len(),
{
    if data.len() == 0 {
        seq![]
    } else if data.len() <= MAX_DATA_LEN {
        seq![packet(data, false, handshake)]
    } else {
        seq![packet(data.take(MAX_DATA_LEN as int), true, handshake)] + packets(
            data.skip(MAX_DATA_LEN as int),
            handshake,
        )
    }
}

/// All the bytes of a sequence of packets, in order.
pub open spec fn joined(parts: Seq<Seq<u8>>) -> Seq<u8>
    decreases parts.len(),
{
    if parts.len() == 0 {
        seq![]
    } else {
        parts[0] + joined(parts.drop_first())
    }
}

/// The length of the packet that starts with `bytes`, as its header says.
pub open spec fn packet_len(bytes: Seq<u8>) -> nat {
    (HEADER_LEN + bytes[0] * 256 + bytes[1]) as nat
}

/// `bytes` is exactly one packet.
pub open spec fn complete(bytes: Seq<u8>) -> bool {
    bytes.len() >= HEADER_LEN && bytes.len() == packet_len(bytes)
}

/// `bytes` is a packet, or the beginning of one.
pub open spec fn at_most_one(bytes: Seq<u8>) -> bool {
    bytes.len() < HEADER_LEN || bytes.len() <= packet_len(bytes)
}

/// The packet says that its message goes on in the next packet.
pub open spec fn continued(packet: Seq<u8>) -> bool {
    packet[METADATA_BYTE_OFFSET as int] & CONTINUATION_FLAG == CONTINUATION_FLAG
}

/// The packet says that it belongs to a handshake.
pub open spec fn of_handshake(packet: Seq<u8>) -> bool {
    packet[METADATA_BYTE_OFFSET as int] & HANDSHAKE_FLAG == HANDSHAKE_FLAG
}

/// One message as it stands at the front of a stream of bytes.
#[verifier::ext_equal]
pub struct Message {
    /// The data of its packets, put together.
    pub data: Seq<u8>,
    /// For each of its packets, whether it is marked as a handshake packet.
    pub marks: Seq<bool>,
    /// How many bytes of the stream it takes up.
    pub size: nat,
}

impl Message {
    /// Every packet is a handshake packet.
    pub open spec fn all_handshake(self) -> bool {
        forall|i: int| 0 <= i < self.marks.len() ==> self.marks[i]
    }

    /// Some packet is a handshake packet.
    pub open spec fn any_handshake(self) -> bool {
        exists|i: int| 0 <= i < self.marks.len() && self.marks[i]
    }
}

/// The first message of a stream of bytes: the packets up to and with the first
/// that is not continued. `None` while the last of them has not fully arrived.
pub open spec fn first_message(bytes: Seq<u8>) -> Option<Message>
    decreases bytes.len(),
{
    if bytes.len() < HEADER_LEN || bytes.len() < packet_len(bytes) {
        None
    } else {
        let size = packet_len(bytes);
        let data = bytes.subrange(HEADER_LEN as int, size as int);
        let mark = of_handshake(bytes);
        if continued(bytes) {
            match first_message(bytes.skip(size as int)) {
                None => None,
                Some(rest) => Some(
                    Message {
                        data: data + rest.data,
                        marks: seq![mark] + rest.marks,
                        size: size + rest.size,
                    },
                ),
            }
        } else {
            Some(Message { data, marks: seq![mark], size })
        }
    }
}

/// What is left of a queue of packets once `n` bytes from its front are gone.
/// A packet of which only a part is gone stays with its other bytes.
pub open spec fn drop_bytes(parts: Seq<Seq<u8>>, n: nat) -> Seq<Seq<u8>>
    decreases parts.len(),
{
    if parts.len() == 0 {
        parts
    } else if n >= parts[0].len() {
        drop_bytes(parts.drop_first(), (n - parts[0].len()) as nat)
    } else {
        seq![parts[0].skip(n as int)] + parts.drop_first()
    }
}

/// The contents of a list of byte vectors.
pub open spec fn views(parts: Seq<Vec<u8>>) -> Seq<Seq<u8>> {
    Seq::new(parts.len(), |i: int| parts[i]@)
}

// ---------------------------------------------------------------------------
// Reading a packet's header
// ---------------------------------------------------------------------------

/// Does the packet say that its message goes on in the next packet?
pub fn continuation_packet(packet: &[u8]) -> (b: bool)
    requires
        packet@.len() > METADATA_BYTE_OFFSET,
    ensures
        b == continued(packet@),
{
    (packet[METADATA_BYTE_OFFSET] & CONTINUATION_FLAG) == CONTINUATION_FLAG
}

/// Does the packet say that it belongs to a handshake?
pub fn handshake_packet(packet: &[u8]) -> (b: bool)
    requires
        packet@.len() > METADATA_BYTE_OFFSET,
    ensures
        b == of_handshake(packet@),
{
    (packet[METADATA_BYTE_OFFSET] & HANDSHAKE_FLAG) == HANDSHAKE_FLAG
}

/// How long the packet is, header and data, going by its length bytes.
pub fn announced_len(packet: &[u8]) -> (len: usize)
    requires
        packet@.len() >= DATA_LEN,
    ensures
        len == packet_len(packet@),
        HEADER_LEN <= len <= HEADER_LEN + 65535,
{
    HEADER_LEN + (packet[0] as usize) * 256 + packet[1] as usize
}

// ---------------------------------------------------------------------------
// Laws
// ---------------------------------------------------------------------------

/// Putting two queues of packets together puts their bytes together.
pub proof fn law_joined_concat(a: Seq<Seq<u8>>, b: Seq<Seq<u8>>)
    ensures
        joined(a + b) == joined(a) + joined(b),
    decreases a.len(),
{
    if a.len() == 0 {
        assert(a + b =~= b);
    } else {
        assert((a + b).drop_first() =~= a.drop_first() + b);
        law_joined_concat(a.drop_first(), b);
    }
}

/// A queue of one packet has that packet's bytes.
pub proof fn lemma_joined_one(part: Seq<u8>)
    ensures
        joined(seq![part]) == part,
{
    assert(seq![part].drop_first() =~= Seq::<Seq<u8>>::empty());
    assert(joined(seq![part].drop_first()) =~= seq![]);
    assert(joined(seq![part]) =~= part);
}

/// Taking `n` written bytes off the queue takes exactly the first `n` bytes off
/// what is still to be written, and nothing else.
pub proof fn law_drop_bytes_is_skip(parts: Seq<Seq<u8>>, n: nat)
    ensures
        n <= joined(parts).len() ==> joined(drop_bytes(parts, n)) == joined(parts).skip(n as int),
        n >= joined(parts).len() ==> drop_bytes(parts, n).len() == 0,
    decreases parts.len(),
{
    if parts.len() == 0 {
    } else {
        let rest = parts.drop_first();
        assert(joined(parts) =~= parts[0] + joined(rest));
        if n >= parts[0].len() {
            law_drop_bytes_is_skip(rest, (n - parts[0].len()) as nat);
            if n <= joined(parts).len() {
                assert(joined(parts).skip(n as int) =~= joined(rest).skip(n - parts[0].len()));
            }
        } else {
            let left = seq![parts[0].skip(n as int)];
            law_joined_concat(left, rest);
            lemma_joined_one(parts[0].skip(n as int));
            assert(joined(parts).skip(n as int) =~= parts[0].skip(n as int) + joined(rest));
        }
    }
}

/// What the flags of a packet read back as.
proof fn lemma_metadata(on: bool, handshake: bool)
    ensures
        (metadata(on, handshake) & CONTINUATION_FLAG == CONTINUATION_FLAG) == on,
        (metadata(on, handshake) & HANDSHAKE_FLAG == HANDSHAKE_FLAG) == handshake,
{
    assert(0u8 & 1u8 == 0u8) by (bit_vector);
    assert(1u8 & 1u8 == 1u8) by (bit_vector);
    assert(2u8 & 1u8 == 0u8) by (bit_vector);
    assert(3u8 & 1u8 == 1u8) by (bit_vector);
    assert(0u8 & 2u8 == 0u8) by (bit_vector);
    assert(1u8 & 2u8 == 0u8) by (bit_vector);
    assert(2u8 & 2u8 == 2u8) by (bit_vector);
    assert(3u8 & 2u8 == 2u8) by (bit_vector);
}

/// A packet at the front of a stream is read back with its length, flags and data.
proof fn lemma_packet_reads_back(data: Seq<u8>, on: bool, handshake: bool, rest: Seq<u8>)
    requires
        data.len() <= MAX_DATA_LEN,
    ensures
        ({
            let bytes = packet(data, on, handshake) + rest;
            &&& packet(data, on, handshake).len() == HEADER_LEN + data.len()
            &&& complete(packet(data, on, handshake))
            &&& packet_len(bytes) == HEADER_LEN + data.len()
            &&& bytes.subrange(HEADER_LEN as int, packet_len(bytes) as int) == data
            &&& bytes.skip(packet_len(bytes) as int) == rest
            &&& continued(bytes) == on
            &&& of_handshake(bytes) == handshake
        }),
{
    lemma_metadata(on, handshake);
    let whole = packet(data, on, handshake);
    let bytes = whole + rest;
    let len = data.len();
    assert(len / 256 < 256);
    assert((len / 256) * 256 + len % 256 == len);
    assert(bytes[0] == (len / 256) as u8 && bytes[1] == (len % 256) as u8);
    assert(whole[0] == (len / 256) as u8 && whole[1] == (len % 256) as u8);
    assert(bytes[2] == metadata(on, handshake));
    assert(bytes.subrange(HEADER_LEN as int, HEADER_LEN + len) =~= data);
    assert(bytes.skip(HEADER_LEN + len) =~= rest);
}

/// A message that is cut into packets is read back whole from the front of any
/// stream that begins with those packets, and nothing of what follows is touched.
pub proof fn law_message_round_trip(data: Seq<u8>, handshake: bool, rest: Seq<u8>)
    requires
        data.len() > 0,
    ensures
        ({
            let cut = packets(data, handshake);
            first_message(joined(cut) + rest) == Some(
                Message {
                    data,
                    marks: Seq::new(cut.len(), |i: int| handshake),
                    size: joined(cut).len(),
                },
            )
        }),
    decreases data.len(),
{
    let cut = packets(data, handshake);
    let marks = Seq::new(cut.len(), |i: int| handshake);
    let bytes = joined(cut) + rest;
    if data.len() <= MAX_DATA_LEN {
        lemma_joined_one(packet(data, false, handshake));
        lemma_packet_reads_back(data, false, handshake, rest);
        assert(marks =~= seq![handshake]);
    } else {
        let head = data.take(MAX_DATA_LEN as int);
        let tail = data.skip(MAX_DATA_LEN as int);
        let first = packet(head, true, handshake);
        assert(cut.drop_first() =~= packets(tail, handshake));
        let after = joined(packets(tail, handshake)) + rest;
        assert(bytes =~= first + after);
        lemma_packet_reads_back(head, true, handshake, after);
        law_message_round_trip(tail, handshake, rest);
        assert(head + tail =~= data);
        let tail_marks = Seq::new(packets(tail, handshake).len(), |i: int| handshake);
        assert(seq![handshake] + tail_marks =~= marks);
    }
}

/// Every packet of a message fits the size limit and carries some data; all of
/// them are marked alike; and the continuation flag is on in each but the last.
pub proof fn law_packets_shape(data: Seq<u8>, handshake: bool, i: int)
    requires
        0 <= i < packets(data, handshake).len(),
    ensures
        ({
            let cut = packets(data, handshake);
            &&& HEADER_LEN < cut[i].len() <= MAX_FRAME_LEN
            &&& complete(cut[i])
            &&& of_handshake(cut[i]) == handshake
            &&& continued(cut[i]) == (i < cut.len() - 1)
        }),
    decreases data.len(),
{
    let cut = packets(data, handshake);
    if data.len() <= MAX_DATA_LEN {
        lemma_packet_reads_back(data, false, handshake, seq![]);
        assert(cut[0] + Seq::<u8>::empty() =~= cut[0]);
    } else {
        let head = data.take(MAX_DATA_LEN as int);
        let tail = data.skip(MAX_DATA_LEN as int);
        lemma_packet_reads_back(head, true, handshake, seq![]);
        assert(cut[0] + Seq::<u8>::empty() =~= cut[0]);
        assert(packets(tail, handshake).len() > 0);
        if i > 0 {
            law_packets_shape(tail, handshake, i - 1);
            assert(cut[i] == packets(tail, handshake)[i - 1]);
        }
    }
}

/// A message that has fully arrived is not changed by what arrives after it.
pub proof fn law_first_message_stable(bytes: Seq<u8>, more: Seq<u8>)
    requires
        first_message(bytes) is Some,
    ensures
        first_message(bytes + more) == first_message(bytes),
        0 < first_message(bytes)->0.size <= bytes.len(),
        first_message(bytes)->0.marks.len() > 0,
    decreases bytes.len(),
{
    let all = bytes + more;
    let size = packet_len(bytes) as int;
    assert(packet_len(all) == size);
    assert(all.subrange(HEADER_LEN as int, size) =~= bytes.subrange(HEADER_LEN as int, size));
    if continued(bytes) {
        assert(all.skip(size) =~= bytes.skip(size) + more);
        law_first_message_stable(bytes.skip(size), more);
    }
}

} // verus!
