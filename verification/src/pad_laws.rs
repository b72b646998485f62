//! What the one-time pad does, byte by byte.
use crate::error::TransformError;
use crate::otp_transform::{
    after_pad, combine, compare_handshake, pad, OtpPacketDataTransform,
};
use crate::pad_rng::{std_rng_after, std_rng_seeded, std_rng_word, PadRng};
use crate::transform::PacketDataTransform;
use rand::rngs::StdRng;
use vstd::prelude::*;

verus! {

/// The pad holds the byte of each generator in a row, each the one before it after a
/// byte has been drawn.
proof fn lemma_row_of_generators<T: PadRng>(row: Seq<T>, n: nat)
    requires
        n < row.len(),
        forall|i: int| 0 <= i < row.len() - 1 ==> #[trigger] row[i + 1] == row[i].after_byte(),
    ensures
        after_pad(row[0], n) == row[n as int],
        pad(row[0], n).len() == n,
        forall|i: int| 0 <= i < n ==> #[trigger] pad(row[0], n)[i] == row[i].byte(),
    decreases n,
{
    if n > 0 {
        lemma_row_of_generators(row, (n - 1) as nat);
        assert(row[(n - 1) + 1] == row[n - 1].after_byte());
    }
}

/// At every place, what is written, or read, is the exclusive or of what is given and
/// of the byte that the generator yields after as many draws. As many bytes are drawn
/// as are given, and nothing else is changed.
pub proof fn law_pad_is_applied_to_every_byte<T: PadRng>(
    t: &mut OtpPacketDataTransform<T>,
    data: &[u8],
    r: Result<Vec<u8>, TransformError>,
    row: Seq<T>,
    i: int,
)
    requires
        call_ensures(
            <OtpPacketDataTransform<T> as PacketDataTransform>::write_message,
            (t, data),
            r,
        ) || call_ensures(
            <OtpPacketDataTransform<T> as PacketDataTransform>::read_payload,
            (t, data),
            r,
        ),
        row.len() == data@.len() + 1,
        row[0] == old(t)@.rng,
        forall|j: int| 0 <= j < row.len() - 1 ==> #[trigger] row[j + 1] == row[j].after_byte(),
        0 <= i < data@.len(),
    ensures
        r is Ok,
        r->Ok_0@.len() == data@.len(),
        r->Ok_0@[i] == data@[i] ^ row[i].byte(),
        final(t)@.rng == row.last(),
        final(t)@.stage == old(t)@.stage,
        final(t)@.handshake_bytes == old(t)@.handshake_bytes,
{
    lemma_row_of_generators(row, data@.len());
    assert(pad(row[0], data@.len())[i] == row[i].byte());
}

/// Nothing given, nothing drawn.
pub proof fn law_pad_is_not_wasted<T: PadRng>(
    t: &mut OtpPacketDataTransform<T>,
    data: &[u8],
    r: Result<Vec<u8>, TransformError>,
)
    requires
        call_ensures(
            <OtpPacketDataTransform<T> as PacketDataTransform>::write_message,
            (t, data),
            r,
        ) || call_ensures(
            <OtpPacketDataTransform<T> as PacketDataTransform>::read_payload,
            (t, data),
            r,
        ),
        data@.len() == 0,
    ensures
        r is Ok,
        r->Ok_0@.len() == 0,
        final(t)@ == old(t)@,
{
}

/// A transform starts with the generator of its seed: ready for data, to send the
/// handshake message, or to wait for it.
pub proof fn law_pad_starts_from_the_seed<T: PadRng>(
    seed: u64,
    plain: OtpPacketDataTransform<T>,
    client: OtpPacketDataTransform<T>,
    server: OtpPacketDataTransform<T>,
)
    requires
        call_ensures(OtpPacketDataTransform::<T>::new, (seed,), plain),
        call_ensures(OtpPacketDataTransform::<T>::client, (seed,), client),
        call_ensures(OtpPacketDataTransform::<T>::server, (seed,), server),
    ensures
        plain@.rng == T::seeded(seed) && plain@.stage is Transport,
        client@.rng == T::seeded(seed) && client@.stage is HandshakingSend,
        server@.rng == T::seeded(seed) && server@.stage is HandshakingWait,
        plain@.handshake_bytes is None && client@.handshake_bytes is None
            && server@.handshake_bytes is None,
{
}

/// The handshake goes on as long as the message is to be sent or waited for, and is
/// opened by the side that sends it. There is no limit on data, and the pad is never
/// beyond use.
pub proof fn law_pad_stages<T: PadRng>(
    t: &mut OtpPacketDataTransform<T>,
    handshaking: bool,
    opens: bool,
    poisoned: bool,
    limit: Option<usize>,
)
    requires
        call_ensures(
            <OtpPacketDataTransform<T> as PacketDataTransform>::handshaking,
            (&*old(t),),
            handshaking,
        ),
        call_ensures(
            <OtpPacketDataTransform<T> as PacketDataTransform>::need_to_start_handshake,
            (t,),
            opens,
        ),
        call_ensures(
            <OtpPacketDataTransform<T> as PacketDataTransform>::poisoned,
            (&*old(t),),
            poisoned,
        ),
        call_ensures(
            <OtpPacketDataTransform<T> as PacketDataTransform>::max_payload_bytes,
            (&*old(t),),
            limit,
        ),
    ensures
        handshaking <==> old(t)@.stage is HandshakingSend || old(t)@.stage is HandshakingWait,
        opens <==> old(t)@.stage is HandshakingSend,
        !poisoned,
        limit is None,
        *final(t) == *old(t),
{
}

/// The side that sends draws 100000 bytes, which wait to be fetched, and is then ready
/// for data. The side that waits is not moved by an empty message; it compares a
/// message of 100000 bytes with its own, and is ready for data exactly if they are the
/// same. Any other message, and any step after the handshake, is refused, and leaves
/// the stage invalid.
pub proof fn law_pad_handshake<T: PadRng>(
    t: &mut OtpPacketDataTransform<T>,
    msg: &[u8],
    r: Result<(), TransformError>,
)
    requires
        call_ensures(
            <OtpPacketDataTransform<T> as PacketDataTransform>::handshake_step,
            (t, msg),
            r,
        ),
        !(old(t)@.stage is Invalid),
    ensures
        ({
            let pre = old(t)@;
            let post = final(t)@;
            let own = pre.rng.bytes(100000);
            let drawn = post.rng == pre.rng.after_bytes(100000);
            &&& pre.stage is HandshakingSend ==> r is Ok && post.stage is Transport && drawn
                && post.handshake_bytes == Some(own)
            &&& pre.stage is HandshakingWait && msg@.len() == 0 ==> r is Ok && post == pre
            &&& pre.stage is HandshakingWait && msg@.len() == 100000 && msg@ == own ==> r is Ok
                && post.stage is Transport && drawn && post.handshake_bytes == pre.handshake_bytes
            &&& pre.stage is HandshakingWait && msg@.len() == 100000 && msg@ != own ==> (
            r matches Err(TransformError::PadBytes)) && post.stage is Invalid && drawn
            &&& pre.stage is HandshakingWait && msg@.len() != 100000 && msg@.len() != 0 ==> (
            r matches Err(TransformError::PadLength)) && post.stage is Invalid && post.rng
                == pre.rng
            &&& pre.stage is Transport ==> (r matches Err(TransformError::HandshakeOver))
                && post.stage is Invalid && post.rng == pre.rng
        }),
{
}

/// The handshake message is fetched once, and fetching it changes nothing else.
pub proof fn law_pad_message_is_fetched_once<T: PadRng>(
    t: &mut OtpPacketDataTransform<T>,
    r: Result<Option<Vec<u8>>, TransformError>,
)
    requires
        call_ensures(
            <OtpPacketDataTransform<T> as PacketDataTransform>::handshake_bytes,
            (t,),
            r,
        ),
    ensures
        old(t)@.handshake_bytes matches Some(bytes) ==> (r matches Ok(Some(got)) && got@ == bytes),
        old(t)@.handshake_bytes is None ==> (r matches Ok(None)),
        final(t)@.handshake_bytes is None,
        final(t)@.rng == old(t)@.rng,
        final(t)@.stage == old(t)@.stage,
{
}

/// Bytes are combined each with the one in its place, and compared all of them.
pub proof fn law_bytes_are_combined_and_compared(
    data: &[u8],
    drawn: &[u8],
    out: Vec<u8>,
    same: Result<(), TransformError>,
    i: int,
)
    requires
        drawn@.len() == data@.len() ==> call_ensures(combine, (data, drawn), out),
        call_ensures(compare_handshake, (data, drawn), same),
    ensures
        drawn@.len() == data@.len() ==> out@.len() == data@.len() && (0 <= i < data@.len()
            ==> out@[i] == data@[i] ^ drawn@[i]),
        drawn@.len() != data@.len() ==> (same matches Err(TransformError::PadBytes)),
        0 <= i < data@.len() && drawn@.len() == data@.len() && data@[i] != drawn@[i] ==> (
        same matches Err(TransformError::PadBytes)),
        data@ == drawn@ ==> same is Ok,
{
}

/// The standard generator draws a byte as the lowest byte of its next word, and fills a
/// buffer with the bytes of its next words, lowest first, one word for every four bytes
/// begun.
pub proof fn law_standard_generator(
    seed: u64,
    made: StdRng,
    drawing: &mut StdRng,
    b: u8,
    filling: &mut StdRng,
    buf: &mut Vec<u8>,
    r: (),
    i: int,
)
    requires
        call_ensures(<StdRng as PadRng>::from_u64_seed, (seed,), made),
        call_ensures(<StdRng as PadRng>::draw, (drawing,), b),
        call_ensures(<StdRng as PadRng>::fill_buffer, (filling, buf), r),
        0 <= i < old(buf)@.len(),
    ensures
        made == std_rng_seeded(seed),
        b == std_rng_word(*old(drawing), 0) % 256,
        *final(drawing) == std_rng_after(*old(drawing), 1),
        final(buf)@.len() == old(buf)@.len(),
        ({
            let word = std_rng_word(*old(filling), (i / 4) as nat) as int;
            let b = final(buf)@[i];
            &&& i % 4 == 0 ==> b == word % 256
            &&& i % 4 == 1 ==> b == (word / 256) % 256
            &&& i % 4 == 2 ==> b == (word / 65536) % 256
            &&& i % 4 == 3 ==> b == (word / 16777216) % 256
        }),
        *final(filling) == std_rng_after(*old(filling), ((old(buf)@.len() + 3) / 4) as nat),
{
}

} // verus!
