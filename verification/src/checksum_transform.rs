//! The transform that puts a Fletcher-32 checksum in front of the data.
use crate::error::TransformError;
use crate::transform::PacketDataTransform;
use vstd::prelude::*;
use vstd::slice::{slice_subrange, slice_to_vec};

verus! {

/// Prepends a Fletcher-32 checksum to the data. This transform increases the
/// size of the data, so that it may take continuation packets.
#[derive(Debug)]
pub struct ChecksumPacketDataTransform {}

/// How many bytes the checksum takes up.
pub const CHECKSUM_LEN: usize = 4;

/// The `i`-th 16-bit little-endian word of the data. An odd byte at the end is
/// taken with a zero byte.
pub open spec fn word(data: Seq<u8>, i: nat) -> nat {
    let high: int = if 2 * i + 1 < data.len() {
        data[(2 * i + 1) as int] as int
    } else {
        0
    };
    (data[2 * i as int] + 256 * high) as nat
}

/// How many words the data has.
pub open spec fn word_count(data: Seq<u8>) -> nat {
    (data.len() + 1) / 2
}

/// The sum of the first `n` words.
pub open spec fn word_sum(data: Seq<u8>, n: nat) -> nat
    decreases n,
{
    if n == 0 {
        0
    } else {
        word_sum(data, (n - 1) as nat) + word(data, (n - 1) as nat)
    }
}

/// The sum of the sums of the first word, the first two words, and so on up to
/// the first `n`.
pub open spec fn sum_of_sums(data: Seq<u8>, n: nat) -> nat
    decreases n,
{
    if n == 0 {
        0
    } else {
        sum_of_sums(data, (n - 1) as nat) + word_sum(data, n)
    }
}

/// The Fletcher-32 checksum: in the low half the sum of the words, in the high
/// half the sum of the running sums, both modulo 65535.
pub open spec fn checksum(data: Seq<u8>) -> nat {
    let n = word_count(data);
    (sum_of_sums(data, n) % 0xFFFF) * 0x10000 + word_sum(data, n) % 0xFFFF
}

/// Four bytes as a little-endian number.
pub open spec fn number(b: Seq<u8>) -> nat {
    (b[0] + 0x100 * b[1] + 0x10000 * b[2] + 0x1000000 * b[3]) as nat
}

/// A number as four bytes, little-endian.
pub open spec fn four_bytes(n: nat) -> Seq<u8> {
    seq![
        (n % 0x100) as u8,
        (n / 0x100 % 0x100) as u8,
        (n / 0x10000 % 0x100) as u8,
        (n / 0x1000000 % 0x100) as u8,
    ]
}

/// The remainders of two sums, once a word has been added.
proof fn lemma_remainder_step(a: int, b: int, w: int)
    ensures
        (a % 0xFFFF + w) % 0xFFFF == (a + w) % 0xFFFF,
        (b % 0xFFFF + (a + w) % 0xFFFF) % 0xFFFF == (b + (a + w)) % 0xFFFF,
{
}

/// The Fletcher-32 checksum of the data.
pub fn fletcher32(data: &[u8]) -> (c: u32)
    ensures
        c == checksum(data@),
{
    let mut sum1: u32 = 0;
    let mut sum2: u32 = 0;
    let mut i: usize = 0;
    let ghost mut n: nat = 0;
    while i < data.len()
        invariant
            n <= word_count(data@),
            i == if 2 * n <= data@.len() {
                2 * n
            } else {
                data@.len()
            },
            sum1 == word_sum(data@, n) % 0xFFFF,
            sum2 == sum_of_sums(data@, n) % 0xFFFF,
        decreases data@.len() - i,
    {
        let low: u32 = data[i] as u32;
        let high: u32 = if data.len() - i >= 2 {
            data[i + 1] as u32
        } else {
            0
        };
        let w: u32 = low + 256 * high;
        assert(w == word(data@, n));
        sum1 = (sum1 + w) % 0xFFFF;
        sum2 = (sum2 + sum1) % 0xFFFF;
        i = if data.len() - i >= 2 {
            i + 2
        } else {
            i + 1
        };
        proof {
            let a = word_sum(data@, n) as int;
            let b = sum_of_sums(data@, n) as int;
            assert(word_sum(data@, n + 1) == a + w);
            assert(sum_of_sums(data@, n + 1) == b + (a + w));
            lemma_remainder_step(a, b, w as int);
            n = n + 1;
        }
    }
    assert(n == word_count(data@));
    assert(((sum2 << 16u32) | sum1) == sum2 * 0x10000 + sum1) by (bit_vector)
        requires
            sum1 < 0xFFFF,
            sum2 < 0xFFFF,
    ;
    (sum2 << 16) | sum1
}

impl PacketDataTransform for ChecksumPacketDataTransform {
    open spec fn in_handshake(&self) -> bool {
        false
    }

    open spec fn opens_handshake(&self) -> bool {
        false
    }

    open spec fn can_step(&self) -> bool {
        true
    }

    open spec fn intact(&self) -> bool {
        true
    }

    open spec fn payload_limit(&self) -> Option<usize> {
        None
    }

    open spec fn steps(&self, msg: Seq<u8>, post: &Self, r: Result<(), TransformError>) -> bool {
        r is Ok && *post == *self
    }

    open spec fn yields(&self, post: &Self, r: Result<Option<Seq<u8>>, TransformError>) -> bool {
        r == Ok::<Option<Seq<u8>>, TransformError>(None) && *post == *self
    }

    /// A message is accepted if it starts with the checksum of its other bytes,
    /// and these are then the payload.
    open spec fn reads(
        &self,
        msg: Seq<u8>,
        post: &Self,
        r: Result<Seq<u8>, TransformError>,
    ) -> bool {
        let data = msg.skip(CHECKSUM_LEN as int);
        &&& *post == *self
        &&& r == if msg.len() < CHECKSUM_LEN {
            Err::<Seq<u8>, TransformError>(TransformError::ChecksumMissing)
        } else if number(msg) != checksum(data) {
            Err(
                TransformError::ChecksumMismatch {
                    computed: checksum(data) as u32,
                    received: number(msg) as u32,
                },
            )
        } else {
            Ok(data)
        }
    }

    open spec fn writes(
        &self,
        payload: Seq<u8>,
        post: &Self,
        r: Result<Seq<u8>, TransformError>,
    ) -> bool {
        r == Ok::<Seq<u8>, TransformError>(four_bytes(checksum(payload)) + payload) && *post
            == *self
    }

    fn handshaking(&self) -> (b: bool) {
        false
    }

    fn need_to_start_handshake(&mut self) -> (b: bool) {
        false
    }

    fn poisoned(&self) -> (b: bool) {
        false
    }

    fn max_payload_bytes(&self) -> (m: Option<usize>) {
        None
    }

    fn handshake_step(&mut self, _msg: &[u8]) -> (r: Result<(), TransformError>) {
        Ok(())
    }

    fn handshake_bytes(&mut self) -> (r: Result<Option<Vec<u8>>, TransformError>) {
        Ok(None)
    }

    fn read_payload(&mut self, msg: &[u8]) -> (r: Result<Vec<u8>, TransformError>) {
        if msg.len() < CHECKSUM_LEN {
            return Err(TransformError::ChecksumMissing);
        }
        let data = slice_subrange(msg, CHECKSUM_LEN, msg.len());
        assert(data@ =~= msg@.skip(CHECKSUM_LEN as int));
        let computed: u32 = fletcher32(data);
        let received: u32 = msg[0] as u32 + 0x100 * msg[1] as u32 + 0x10000 * msg[2] as u32
            + 0x1000000 * msg[3] as u32;
        if computed != received {
            return Err(TransformError::ChecksumMismatch { computed, received });
        }
        Ok(slice_to_vec(data))
    }

    fn write_message(&mut self, payload: &[u8]) -> (r: Result<Vec<u8>, TransformError>) {
        let c: u32 = fletcher32(payload);
        let mut msg: Vec<u8> = Vec::new();
        msg.push((c % 0x100) as u8);
        msg.push((c / 0x100 % 0x100) as u8);
        msg.push((c / 0x10000 % 0x100) as u8);
        msg.push((c / 0x1000000 % 0x100) as u8);
        msg.extend_from_slice(payload);
        assert(msg@ =~= four_bytes(checksum(payload@)) + payload@);
        Ok(msg)
    }
}

/// A number that fits in four bytes is read back from them.
proof fn lemma_four_bytes(n: u32, rest: Seq<u8>)
    ensures
        number(four_bytes(n as nat) + rest) == n,
{
    let b0: u32 = n % 0x100;
    let b1: u32 = n / 0x100 % 0x100;
    let b2: u32 = n / 0x10000 % 0x100;
    let b3: u32 = n / 0x1000000 % 0x100;
    let bytes = four_bytes(n as nat) + rest;
    assert(bytes[0] == b0 && bytes[1] == b1 && bytes[2] == b2 && bytes[3] == b3);
    assert(b0 + 0x100 * b1 + 0x10000 * b2 + 0x1000000 * b3 == n) by (bit_vector)
        requires
            b0 == n % 0x100,
            b1 == n / 0x100 % 0x100,
            b2 == n / 0x10000 % 0x100,
            b3 == n / 0x1000000 % 0x100,
    ;
}

/// The checksum fits in four bytes, and is read back from them.
pub proof fn law_checksum_bytes_round_trip(data: Seq<u8>, rest: Seq<u8>)
    ensures
        checksum(data) <= 0xFFFF_FFFF,
        number(four_bytes(checksum(data)) + rest) == checksum(data),
{
    lemma_four_bytes(checksum(data) as u32, rest);
}

/// What one checksum transform writes, any other accepts and reads back as it was.
pub proof fn law_checksum_round_trip(
    writer: ChecksumPacketDataTransform,
    writer_after: ChecksumPacketDataTransform,
    payload: Seq<u8>,
    written: Result<Seq<u8>, TransformError>,
    reader: ChecksumPacketDataTransform,
    reader_after: ChecksumPacketDataTransform,
    read: Result<Seq<u8>, TransformError>,
)
    requires
        writer.writes(payload, &writer_after, written),
        written matches Ok(msg) && reader.reads(msg, &reader_after, read),
    ensures
        read == Ok::<Seq<u8>, TransformError>(payload),
{
    law_checksum_bytes_round_trip(payload, payload);
    let msg = four_bytes(checksum(payload)) + payload;
    assert(msg.skip(CHECKSUM_LEN as int) =~= payload);
}

/// `other` is `data` with another byte at one place.
pub open spec fn one_changed(data: Seq<u8>, other: Seq<u8>, at: int) -> bool {
    &&& other.len() == data.len()
    &&& 0 <= at < data.len()
    &&& other[at] != data[at]
    &&& forall|i: int| 0 <= i < data.len() && i != at ==> other[i] == data[i]
}

/// By how much a changed byte changes its word.
spec fn word_change(data: Seq<u8>, other: Seq<u8>, at: int) -> int {
    if at % 2 == 0 {
        other[at] - data[at]
    } else {
        256 * other[at] - 256 * data[at]
    }
}

/// A changed byte changes its word, and no other.
proof fn lemma_word_changed(data: Seq<u8>, other: Seq<u8>, at: int, i: nat)
    requires
        one_changed(data, other, at),
        i < word_count(data),
    ensures
        word(other, i) - word(data, i) == (if i == at / 2 {
            word_change(data, other, at)
        } else {
            0
        }),
{
    assert(2 * i < data.len());
}

/// A changed byte changes the sum of the words as it changes its word.
proof fn lemma_word_sum_changed(data: Seq<u8>, other: Seq<u8>, at: int, n: nat)
    requires
        one_changed(data, other, at),
        n <= word_count(data),
    ensures
        word_sum(other, n) - word_sum(data, n) == (if n > at / 2 {
            word_change(data, other, at)
        } else {
            0
        }),
    decreases n,
{
    if n > 0 {
        lemma_word_sum_changed(data, other, at, (n - 1) as nat);
        lemma_word_changed(data, other, at, (n - 1) as nat);
    }
}

/// A sum that is changed by less than the modulus is another sum.
proof fn lemma_other_remainder(a: int, b: int)
    requires
        a >= 0,
        b >= 0,
        a != b,
        -0xFFFF < a - b < 0xFFFF,
    ensures
        a % 0xFFFF != b % 0xFFFF,
{
}

/// The low half of a checksum.
proof fn lemma_low_half(high: nat, low: nat)
    requires
        low < 0x10000,
    ensures
        (high * 0x10000 + low) % 0x10000 == low,
{
}

/// A changed byte changes the checksum.
proof fn lemma_checksum_changed(data: Seq<u8>, other: Seq<u8>, at: int)
    requires
        one_changed(data, other, at),
    ensures
        checksum(other) != checksum(data),
{
    let n = word_count(data);
    let a = word_sum(data, n);
    let b = word_sum(other, n);
    lemma_word_sum_changed(data, other, at, n);
    assert(n > at / 2);
    assert(b - a == word_change(data, other, at));
    lemma_other_remainder(b as int, a as int);
    lemma_low_half(sum_of_sums(data, n) % 0xFFFF, a % 0xFFFF);
    lemma_low_half(sum_of_sums(other, n) % 0xFFFF, b % 0xFFFF);
}

/// A changed byte among the first four changes the number that they are.
proof fn lemma_number_changed(msg: Seq<u8>, changed: Seq<u8>, at: int)
    requires
        one_changed(msg, changed, at),
        msg.len() >= CHECKSUM_LEN,
    ensures
        at < CHECKSUM_LEN ==> number(changed) != number(msg),
        at >= CHECKSUM_LEN ==> number(changed) == number(msg),
{
}

/// A message that differs in one byte from one that was written is refused.
pub proof fn law_changed_byte_is_refused(
    writer: ChecksumPacketDataTransform,
    writer_after: ChecksumPacketDataTransform,
    payload: Seq<u8>,
    msg: Seq<u8>,
    changed: Seq<u8>,
    at: int,
    reader: ChecksumPacketDataTransform,
    reader_after: ChecksumPacketDataTransform,
    read: Result<Seq<u8>, TransformError>,
)
    requires
        writer.writes(payload, &writer_after, Ok(msg)),
        one_changed(msg, changed, at),
        reader.reads(changed, &reader_after, read),
    ensures
        read matches Err(TransformError::ChecksumMismatch { .. }),
{
    law_checksum_bytes_round_trip(payload, payload);
    lemma_number_changed(msg, changed, at);
    let data = changed.skip(CHECKSUM_LEN as int);
    assert(msg.skip(CHECKSUM_LEN as int) =~= payload);
    if at < CHECKSUM_LEN {
        assert(data =~= payload);
    } else {
        let i = at - CHECKSUM_LEN;
        assert forall|j: int| 0 <= j < payload.len() && j != i implies data[j] == payload[j] by {
            assert(data[j] == changed[j + CHECKSUM_LEN]);
            assert(payload[j] == msg[j + CHECKSUM_LEN]);
        }
        assert(payload[i] == msg[at]);
        assert(data[i] == changed[at]);
        lemma_checksum_changed(payload, data, i);
    }
}

} // verus!
