//! What the Noise transform does, step by step.
use crate::error::TransformError;
use crate::noise_transform::{
    filled_part, handshake_wrote, session_of, state_shown, NoisePacketDataTransform,
    NoiseProtocolStep, NoiseState, NoiseView,
};
use crate::shown::{showed, Shown, ShownValue, Written};
use crate::snow_link::{
    handshake_ciphers, handshake_local_key, handshake_mates, handshake_read, handshake_standing,
    noise_open, noise_seal, snow_error_text,
};
use crate::transform::PacketDataTransform;
use snow::HandshakeState;
use vstd::prelude::*;

verus! {

/// A transform is made exactly for a pre-shared key of 32 bytes. It stands at the
/// beginning of its handshake, on its side, with that key, and nothing waits to be
/// fetched.
pub proof fn law_noise_is_made(
    psk: &[u8],
    key: &[u8],
    client: bool,
    r: Result<NoisePacketDataTransform, TransformError>,
)
    requires
        client ==> call_ensures(NoisePacketDataTransform::client, (psk,), r) || call_ensures(
            NoisePacketDataTransform::client_with_key,
            (psk, key),
            r,
        ),
        !client ==> call_ensures(NoisePacketDataTransform::server, (psk,), r) || call_ensures(
            NoisePacketDataTransform::server_with_key,
            (psk, key),
            r,
        ),
    ensures
        r is Ok <==> psk@.len() == 32,
        r matches Err(e) ==> (e matches TransformError::Noise(words) && words@
            == "initialization error: ValidatePskLengths"@),
        r matches Ok(t) ==> (t@ matches NoiseView::Handshake { state, noise, bytes }
            && bytes is None && handshake_standing(noise) == Some((client, psk@, 0nat)) && if client {
            state is ClientStart
        } else {
            state is ServerStart
        }),
{
}

/// A private key that is given is the one that is used.
pub proof fn law_given_key_is_used(
    psk: &[u8],
    key: &[u8],
    r: Result<NoisePacketDataTransform, TransformError>,
)
    requires
        call_ensures(NoisePacketDataTransform::client_with_key, (psk, key), r) || call_ensures(
            NoisePacketDataTransform::server_with_key,
            (psk, key),
            r,
        ),
        key@.len() == 32,
        r is Ok,
    ensures
        r->Ok_0@ matches NoiseView::Handshake { noise, .. } && handshake_local_key(noise) == key@,
{
}

/// The handshake goes on until there is a session, or it failed; only the client opens
/// it; a failure leaves the transform beyond use. What is written at once is limited to
/// 65519 bytes.
pub proof fn law_noise_stages(
    t: &mut NoisePacketDataTransform,
    handshaking: bool,
    opens: bool,
    poisoned: bool,
    limit: Option<usize>,
)
    requires
        call_ensures(
            <NoisePacketDataTransform as PacketDataTransform>::handshaking,
            (&*old(t),),
            handshaking,
        ),
        call_ensures(
            <NoisePacketDataTransform as PacketDataTransform>::need_to_start_handshake,
            (t,),
            opens,
        ),
        call_ensures(
            <NoisePacketDataTransform as PacketDataTransform>::poisoned,
            (&*old(t),),
            poisoned,
        ),
        call_ensures(
            <NoisePacketDataTransform as PacketDataTransform>::max_payload_bytes,
            (&*old(t),),
            limit,
        ),
    ensures
        handshaking <==> old(t)@ is Handshake,
        opens <==> (old(t)@ matches NoiseView::Handshake { state, .. } && state is ClientStart),
        poisoned <==> old(t)@ is Invalid,
        limit == Some(65519usize),
        *final(t) == *old(t),
{
}

/// The client opens with a message of 48 bytes, which the other end can read, and then
/// waits for the answer.
pub proof fn law_client_opens(
    t: &mut NoisePacketDataTransform,
    msg: &[u8],
    r: Result<(), TransformError>,
    noise: HandshakeState,
    psk: Seq<u8>,
    waiting: Option<Seq<u8>>,
    other: HandshakeState,
)
    requires
        call_ensures(
            <NoisePacketDataTransform as PacketDataTransform>::handshake_step,
            (t, msg),
            r,
        ),
        old(t)@ == (NoiseView::Handshake {
            state: NoiseProtocolStep::ClientStart,
            noise,
            bytes: waiting,
        }),
        handshake_standing(noise) == Some((true, psk, 0nat)),
    ensures
        r is Ok,
        final(t)@ matches NoiseView::Handshake { state, noise: next, bytes: Some(out) }
            && state is ClientWait && out.len() == 48 && handshake_standing(next) == Some(
            (true, psk, 1nat),
        ) && handshake_local_key(next) == handshake_local_key(noise) && (handshake_mates(
            other,
            noise,
        ) ==> (handshake_read(other, out) matches Ok(heard) && handshake_mates(next, heard))),
{
}

/// The server is not moved by an empty message. It answers the client's first message
/// with one of 96 bytes, which the other end can read, and then waits for the last.
pub proof fn law_server_answers(
    t: &mut NoisePacketDataTransform,
    msg: &[u8],
    r: Result<(), TransformError>,
    noise: HandshakeState,
    psk: Seq<u8>,
    waiting: Option<Seq<u8>>,
    other: HandshakeState,
)
    requires
        call_ensures(
            <NoisePacketDataTransform as PacketDataTransform>::handshake_step,
            (t, msg),
            r,
        ),
        old(t)@ == (NoiseView::Handshake {
            state: NoiseProtocolStep::ServerStart,
            noise,
            bytes: waiting,
        }),
        handshake_standing(noise) == Some((false, psk, 0nat)),
    ensures
        msg@.len() == 0 ==> r is Ok && final(t)@ == old(t)@,
        msg@.len() > 0 ==> match handshake_read(noise, msg@) {
            Err(words) => final(t)@ is Invalid && (r matches Err(TransformError::Noise(w)) && w@
                == words),
            Ok(read) => r is Ok && (final(t)@ matches NoiseView::Handshake {
                state,
                noise: next,
                bytes: Some(out),
            } && state is ServerWait && out.len() == 96 && handshake_standing(next) == Some(
                (false, psk, 2nat),
            ) && (handshake_mates(other, read) ==> (handshake_read(other, out) matches Ok(heard)
                && handshake_mates(next, heard)))),
        },
{
}

/// The client takes the answer, sends a last message of 64 bytes, which the other end
/// can read, and has a session with the ciphers that were agreed on, whose nonces start
/// at 0.
pub proof fn law_client_ends(
    t: &mut NoisePacketDataTransform,
    msg: &[u8],
    r: Result<(), TransformError>,
    noise: HandshakeState,
    psk: Seq<u8>,
    waiting: Option<Seq<u8>>,
    other: HandshakeState,
)
    requires
        call_ensures(
            <NoisePacketDataTransform as PacketDataTransform>::handshake_step,
            (t, msg),
            r,
        ),
        old(t)@ == (NoiseView::Handshake {
            state: NoiseProtocolStep::ClientWait,
            noise,
            bytes: waiting,
        }),
        handshake_standing(noise) == Some((true, psk, 1nat)),
    ensures
        match handshake_read(noise, msg@) {
            Err(words) => final(t)@ is Invalid && (r matches Err(TransformError::Noise(w)) && w@
                == words),
            Ok(read) => r is Ok && (final(t)@ matches NoiseView::Transport {
                sender,
                receiver,
                bytes: Some(out),
            } && out.len() == 64 && sender.1 == 0 && receiver.1 == 0 && exists|next: HandshakeState|
             #[trigger]
                handshake_standing(next) == Some((true, psk, 3nat)) && sender.0
                    == handshake_ciphers(next).0 && receiver.0 == handshake_ciphers(next).1 && (
                handshake_mates(other, read) ==> (handshake_read(other, out) matches Ok(heard)
                    && handshake_mates(next, heard) && handshake_ciphers(heard) == (
                    receiver.0,
                    sender.0,
                )))),
        },
{
    if let Ok(read) = handshake_read(noise, msg@) {
        let out = final(t)@->Transport_bytes->0;
        let sender = final(t)@->sender;
        let receiver = final(t)@->receiver;
        let next = choose|next: HandshakeState| #[trigger]
            handshake_wrote(read, next, out) && session_of(next, sender, receiver);
        assert(handshake_standing(next) == Some((true, psk, 3nat)));
    }
}

/// The server takes the last message, and has a session with the ciphers that were
/// agreed on, whose nonces start at 0.
pub proof fn law_server_ends(
    t: &mut NoisePacketDataTransform,
    msg: &[u8],
    r: Result<(), TransformError>,
    noise: HandshakeState,
    waiting: Option<Seq<u8>>,
)
    requires
        call_ensures(
            <NoisePacketDataTransform as PacketDataTransform>::handshake_step,
            (t, msg),
            r,
        ),
        old(t)@ == (NoiseView::Handshake {
            state: NoiseProtocolStep::ServerWait,
            noise,
            bytes: waiting,
        }),
    ensures
        match handshake_read(noise, msg@) {
            Err(words) => final(t)@ is Invalid && (r matches Err(TransformError::Noise(w)) && w@
                == words),
            Ok(read) => r is Ok && final(t)@ == (NoiseView::Transport {
                sender: (handshake_ciphers(read).0, 0u64),
                receiver: (handshake_ciphers(read).1, 0u64),
                bytes: None,
            }),
        },
{
}

/// A handshake step after the handshake is refused, and leaves the transform beyond use.
pub proof fn law_noise_handshake_ends_once(
    t: &mut NoisePacketDataTransform,
    msg: &[u8],
    r: Result<(), TransformError>,
)
    requires
        call_ensures(
            <NoisePacketDataTransform as PacketDataTransform>::handshake_step,
            (t, msg),
            r,
        ),
        old(t)@ is Transport,
    ensures
        r matches Err(TransformError::HandshakeOver),
        final(t)@ is Invalid,
{
}

/// A handshake message is fetched once, and fetching it changes nothing else.
pub proof fn law_noise_message_is_fetched_once(
    t: &mut NoisePacketDataTransform,
    r: Result<Option<Vec<u8>>, TransformError>,
    waiting: Option<Seq<u8>>,
)
    requires
        call_ensures(
            <NoisePacketDataTransform as PacketDataTransform>::handshake_bytes,
            (t,),
            r,
        ),
        match old(t)@ {
            NoiseView::Invalid => false,
            NoiseView::Handshake { bytes, .. } => bytes == waiting,
            NoiseView::Transport { bytes, .. } => bytes == waiting,
        },
    ensures
        waiting matches Some(bytes) ==> (r matches Ok(Some(got)) && got@ == bytes),
        waiting is None ==> (r matches Ok(None)),
        match old(t)@ {
            NoiseView::Invalid => false,
            NoiseView::Handshake { state, noise, .. } => final(t)@ == (NoiseView::Handshake {
                state,
                noise,
                bytes: None,
            }),
            NoiseView::Transport { sender, receiver, .. } => final(t)@ == (NoiseView::Transport {
                sender,
                receiver,
                bytes: None,
            }),
        },
{
}

/// Data is neither read nor written before the handshake is over.
pub proof fn law_no_data_before_the_session(
    t: &mut NoisePacketDataTransform,
    data: &[u8],
    r: Result<Vec<u8>, TransformError>,
)
    requires
        call_ensures(
            <NoisePacketDataTransform as PacketDataTransform>::write_message,
            (t, data),
            r,
        ) || call_ensures(
            <NoisePacketDataTransform as PacketDataTransform>::read_payload,
            (t, data),
            r,
        ),
        old(t)@ is Handshake,
    ensures
        r matches Err(TransformError::HandshakePending),
        final(t)@ == old(t)@,
{
}

/// A session writes what encryption with its cipher and next nonce makes of the
/// payload, which is 16 bytes longer and opens to the payload, and the nonce is used up.
/// A payload above the limit, and one for which there is no nonce left, are refused, and
/// change nothing.
pub proof fn law_session_encrypts(
    t: &mut NoisePacketDataTransform,
    payload: &[u8],
    r: Result<Vec<u8>, TransformError>,
    cipher: Seq<u8>,
    nonce: u64,
    receiver: (Seq<u8>, u64),
    waiting: Option<Seq<u8>>,
)
    requires
        call_ensures(
            <NoisePacketDataTransform as PacketDataTransform>::write_message,
            (t, payload),
            r,
        ),
        old(t)@ == (NoiseView::Transport { sender: (cipher, nonce), receiver, bytes: waiting }),
    ensures
        payload@.len() > 65519 ==> final(t)@ == old(t)@ && (r matches Err(TransformError::Noise(w))
            && w@ == "input error"@),
        payload@.len() <= 65519 && nonce == u64::MAX ==> final(t)@ == old(t)@ && (
        r matches Err(TransformError::Noise(w)) && w@ == "state error: Exhausted"@),
        payload@.len() <= 65519 && nonce < u64::MAX ==> (r matches Ok(msg) && msg@ == noise_seal(
            cipher,
            nonce,
            payload@,
        ) && msg@.len() == payload@.len() + 16 && noise_open(cipher, nonce, msg@) == Some(payload@))
            && final(t)@ == (NoiseView::Transport {
            sender: (cipher, (nonce + 1) as u64),
            receiver,
            bytes: waiting,
        }),
{
}

/// A session reads what decryption with its cipher and next nonce makes of the message,
/// and the nonce is used up. A message that does not open, is too long or too short, or
/// for which there is no nonce left, is refused, and changes nothing.
pub proof fn law_session_decrypts(
    t: &mut NoisePacketDataTransform,
    msg: &[u8],
    r: Result<Vec<u8>, TransformError>,
    sender: (Seq<u8>, u64),
    cipher: Seq<u8>,
    nonce: u64,
    waiting: Option<Seq<u8>>,
)
    requires
        call_ensures(
            <NoisePacketDataTransform as PacketDataTransform>::read_payload,
            (t, msg),
            r,
        ),
        old(t)@ == (NoiseView::Transport { sender, receiver: (cipher, nonce), bytes: waiting }),
    ensures
        msg@.len() > 65535 ==> (r matches Err(TransformError::Noise(w)) && w@ == "input error"@),
        msg@.len() < 16 ==> (r matches Err(TransformError::Noise(w)) && w@ == "decrypt error"@),
        16 <= msg@.len() <= 65535 && nonce == u64::MAX ==> (r matches Err(TransformError::Noise(w))
            && w@ == "state error: Exhausted"@),
        16 <= msg@.len() <= 65535 && nonce < u64::MAX ==> match noise_open(cipher, nonce, msg@) {
            None => r matches Err(TransformError::Noise(w)) && w@ == "decrypt error"@,
            Some(payload) => (r matches Ok(got) && got@ == payload && payload.len() + 16
                == msg@.len()) && final(t)@ == (NoiseView::Transport {
                sender,
                receiver: (cipher, (nonce + 1) as u64),
                bytes: waiting,
            }),
        },
        r is Err ==> final(t)@ == old(t)@,
{
}

/// Of a buffer, exactly the bytes that were filled are given; an error keeps its words.
pub proof fn law_filled_part(
    r: Result<usize, snow::Error>,
    buf: Vec<u8>,
    part: Result<Vec<u8>, TransformError>,
)
    requires
        call_ensures(filled_part, (r, buf), part),
        r matches Ok(n) ==> n <= buf@.len(),
    ensures
        r matches Ok(n) ==> (part matches Ok(bytes) && bytes@.len() == n && bytes@ == buf@.subrange(
            0,
            n as int,
        )),
        r matches Err(e) ==> (part matches Err(TransformError::Noise(w)) && w@ == snow_error_text(
            e,
        )),
{
}

/// A handshake is shown by its step and the message that waits, a session by the
/// message that waits, and an invalid state not at all.
pub proof fn law_noise_is_shown(state: NoiseState)
    ensures
        state_shown(state) is None <==> state is Invalid,
        state matches NoiseState::Handshake { state: step, handshake_bytes, .. } ==> ({
            let shown = state_shown(state)->0;
            &&& shown.name == "NoiseState::Handshake"@
            &&& shown.fields.len() == 2
            &&& shown.fields[0] == ("state"@, ShownValue::Step(step))
            &&& shown.fields[1].0 == "handshake_bytes"@
            &&& shown.fields[1].1 matches ShownValue::Bytes(bytes) && match handshake_bytes {
                Some(waiting) => bytes == Some(waiting@),
                None => bytes is None,
            }
        }),
        state matches NoiseState::Transport { final_handshake_bytes, .. } ==> ({
            let shown = state_shown(state)->0;
            &&& shown.name == "NoiseState::Transport"@
            &&& shown.fields.len() == 1
            &&& shown.fields[0].0 == "final_handshake_bytes"@
            &&& shown.fields[0].1 matches ShownValue::Bytes(bytes) && match final_handshake_bytes {
                Some(waiting) => bytes == Some(waiting@),
                None => bytes is None,
            }
        }),
{
}

/// Showing a structure succeeds with that structure, as it is, after all that was shown
/// before, and fails only with an error in writing.
pub proof fn law_showing(
    before: Written,
    after: Written,
    shown: Shown,
    r: Result<(), std::fmt::Error>,
)
    requires
        showed(before, after, shown, r),
    ensures
        r is Ok ==> after.shown.len() == before.shown.len() + 1 && after.shown.last() == shown
            && after.shown.drop_last() == before.shown,
        r is Err ==> after.failed,
{
    if r is Ok {
        assert(after.shown.drop_last() =~= before.shown);
    }
}

} // verus!
