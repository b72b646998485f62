//! What is taken on trust of the `snow` crate.
//!
//! Everything below speaks of sessions of one protocol, with the crate's own
//! cryptography: the three-message handshake XX with a pre-shared key mixed into
//! the third message. Of any other session nothing is said.
use snow::params::NoiseParams;
use snow::{Builder, HandshakeState, TransportState};
use vstd::prelude::*;

verus! {

/// The largest message of the Noise protocol.
pub const NOISE_MAX_MESSAGE: usize = 65535;

/// How many bytes encryption adds.
pub const NOISE_TAG: usize = 16;

/// The length of a pre-shared key, and of a private key.
pub const NOISE_KEY: usize = 32;

/// The name of the protocol.
pub open spec fn noise_protocol() -> Seq<char> {
    "Noise_XXpsk3_25519_ChaChaPoly_BLAKE2s"@
}

#[verifier::external_type_specification]
#[verifier::external_body]
pub struct ExSnowError(snow::Error);

#[verifier::external_type_specification]
#[verifier::external_body]
pub struct ExNoiseParams(snow::params::NoiseParams);

#[verifier::external_type_specification]
#[verifier::external_body]
pub struct ExBuilder<'builder>(snow::Builder<'builder>);

#[verifier::external_type_specification]
#[verifier::external_body]
pub struct ExHandshakeState(snow::HandshakeState);

#[verifier::external_type_specification]
#[verifier::external_body]
pub struct ExTransportState(snow::TransportState);

// ---------------------------------------------------------------------------
// Names
// ---------------------------------------------------------------------------

/// The words with which an error is displayed.
pub uninterp spec fn snow_error_text(e: snow::Error) -> Seq<char>;

/// The protocol name that the parameters were parsed from.
pub uninterp spec fn params_protocol(params: NoiseParams) -> Seq<char>;

/// What a builder with the default cryptography has been given: the protocol
/// name, the local private key, and the pre-shared keys by their location.
/// `None` for a builder that was given anything else.
pub uninterp spec fn builder_setup(builder: Builder<'_>) -> Option<
    (Seq<char>, Option<Seq<u8>>, Map<u8, Seq<u8>>),
>;

/// Where a handshake stands: whether this end is the initiator, the pre-shared
/// key, and how many messages have gone back and forth. `None` for a handshake of
/// another protocol, and for one that has met an error.
pub uninterp spec fn handshake_standing(h: HandshakeState) -> Option<(bool, Seq<u8>, nat)>;

/// The private key that this end of a handshake was made with.
pub uninterp spec fn handshake_local_key(h: HandshakeState) -> Seq<u8>;

/// The two are the two ends of one handshake, with the same pre-shared key, and
/// every message that one of them wrote was read by the other; `speaker` wrote
/// the last one. Before the first message the responder counts as the speaker.
pub uninterp spec fn handshake_mates(speaker: HandshakeState, listener: HandshakeState) -> bool;

/// What becomes of a handshake that reads a message: its next state, or the words
/// of the error. That a message of an end with another pre-shared key is an error
/// rests on the cryptography, and is not stated.
pub uninterp spec fn handshake_read(h: HandshakeState, msg: Seq<u8>) -> Result<
    HandshakeState,
    Seq<char>,
>;

/// The ciphers (each an algorithm and a key) that a finished handshake has agreed
/// on: the one to encrypt with, then the one to decrypt with.
pub uninterp spec fn handshake_ciphers(h: HandshakeState) -> (Seq<u8>, Seq<u8>);

/// The cipher that a session encrypts with, and its next nonce. `None` for a
/// session of another protocol.
pub uninterp spec fn transport_sender(t: TransportState) -> Option<(Seq<u8>, u64)>;

/// The cipher that a session decrypts with, and its next nonce. `None` for a
/// session of another protocol.
pub uninterp spec fn transport_receiver(t: TransportState) -> Option<(Seq<u8>, u64)>;

/// A payload encrypted with a cipher and a nonce.
pub uninterp spec fn noise_seal(cipher: Seq<u8>, nonce: u64, payload: Seq<u8>) -> Seq<u8>;

/// A message decrypted with a cipher and a nonce, if it passes for one that was made
/// with them. That an altered message does not pass rests on the cryptography, and
/// is not stated.
pub uninterp spec fn noise_open(cipher: Seq<u8>, nonce: u64, msg: Seq<u8>) -> Option<Seq<u8>>;

// ---------------------------------------------------------------------------
// Making a handshake
// ---------------------------------------------------------------------------

/// Calls `Display` of `snow::Error`. The claim: the words depend on the error alone.
#[verifier::external_body]
pub(crate) fn error_text(e: snow::Error) -> (words: String)
    ensures
        words@ == snow_error_text(e),
{
    e.to_string()
}

/// Calls `NoiseParams::from_str`. The claim: the protocol of this library is
/// known, and what is parsed is the protocol of that name.
#[verifier::external_body]
pub(crate) fn parse_params(name: &str) -> (r: Result<NoiseParams, snow::Error>)
    ensures
        name@ == noise_protocol() ==> r is Ok,
        r matches Ok(params) ==> params_protocol(params) == name@,
{
    name.parse()
}

/// `Builder::new`: a builder for the given protocol, with the default cryptography
/// and nothing set.
pub assume_specification<'builder>[ snow::Builder::<'builder>::new ](params: NoiseParams) -> (r:
    snow::Builder<'builder>)
    ensures
        builder_setup(r) == Some(
            (params_protocol(params), None::<Seq<u8>>, Map::<u8, Seq<u8>>::empty()),
        ),
;

/// The protocol that a builder is for.
pub open spec fn setup_protocol(
    setup: Option<(Seq<char>, Option<Seq<u8>>, Map<u8, Seq<u8>>)>,
) -> Option<Seq<char>> {
    match setup {
        Some((name, _, _)) => Some(name),
        None => None,
    }
}

/// Calls `Builder::generate_keypair` and takes the private key. The claim: for the
/// protocol of this library there is always a key, and it has the usual length.
/// Its bytes are random.
#[verifier::external_body]
pub(crate) fn generate_private_key(builder: &Builder<'_>) -> (r: Result<Vec<u8>, snow::Error>)
    ensures
        setup_protocol(builder_setup(*builder)) == Some(noise_protocol()) ==> r is Ok
            && r->Ok_0@.len() == NOISE_KEY,
{
    builder.generate_keypair().map(|pair| pair.private)
}

/// `Builder::local_private_key` sets the private key and leaves the rest.
pub assume_specification<'builder>[ snow::Builder::<'builder>::local_private_key ](
    builder: snow::Builder<'builder>,
    key: &'builder [u8],
) -> (r: snow::Builder<'builder>)
    ensures
        builder_setup(builder) matches Some((name, _, psks)) ==> builder_setup(r) == Some(
            (name, Some(key@), psks),
        ),
;

/// `Builder::psk` sets the pre-shared key at a location and leaves the rest. There
/// are ten locations.
pub assume_specification<'builder>[ snow::Builder::<'builder>::psk ](
    builder: snow::Builder<'builder>,
    location: u8,
    key: &'builder [u8],
) -> (r: snow::Builder<'builder>)
    requires
        location < 10,
    ensures
        builder_setup(builder) matches Some((name, local, psks)) ==> builder_setup(r) == Some(
            (name, local, psks.insert(location, key@)),
        ),
;

/// The builder is ready for the protocol of this library: it holds a private key,
/// and a pre-shared key at location 3 alone.
pub open spec fn setup_ready(
    setup: Option<(Seq<char>, Option<Seq<u8>>, Map<u8, Seq<u8>>)>,
) -> bool {
    &&& setup matches Some((name, Some(key), psks))
    &&& name == noise_protocol()
    &&& key.len() == NOISE_KEY
    &&& psks == Map::<u8, Seq<u8>>::empty().insert(3u8, psks[3u8])
}

/// The local private key of a builder.
pub open spec fn setup_key(
    setup: Option<(Seq<char>, Option<Seq<u8>>, Map<u8, Seq<u8>>)>,
) -> Option<Seq<u8>> {
    match setup {
        Some((_, local, _)) => local,
        None => None,
    }
}

/// The pre-shared key of such a builder.
pub open spec fn setup_psk(
    setup: Option<(Seq<char>, Option<Seq<u8>>, Map<u8, Seq<u8>>)>,
) -> Seq<u8> {
    match setup {
        Some((_, _, psks)) => psks[3u8],
        None => Seq::empty(),
    }
}

/// `Builder::build_initiator`. The local private key must have the length that the
/// protocol uses. The claim: of a builder that is ready, only the length of the
/// pre-shared key can be wrong. The handshake stands at its beginning, with the
/// private key of the builder, and fits any other at its beginning that is for the
/// other end and has the same pre-shared key.
pub assume_specification<'builder>[ snow::Builder::<'builder>::build_initiator ](
    builder: snow::Builder<'builder>,
) -> (r: Result<HandshakeState, snow::Error>)
    requires
        builder_setup(builder) matches Some((_, Some(key), _)) && key.len() == NOISE_KEY,
    ensures
        setup_ready(builder_setup(builder)) ==> (r is Ok <==> setup_psk(
            builder_setup(builder),
        ).len() == NOISE_KEY),
        setup_ready(builder_setup(builder)) && r is Err ==> snow_error_text(r->Err_0)
            == "initialization error: ValidatePskLengths"@,
        setup_ready(builder_setup(builder)) && r is Ok ==> handshake_standing(r->Ok_0) == Some(
            (true, setup_psk(builder_setup(builder)), 0nat),
        ),
        setup_ready(builder_setup(builder)) && r is Ok ==> Some(handshake_local_key(r->Ok_0))
            == setup_key(builder_setup(builder)),
        forall|other: HandshakeState|
            setup_ready(builder_setup(builder)) && r is Ok && handshake_standing(other) == Some(
                (false, setup_psk(builder_setup(builder)), 0nat),
            ) ==> #[trigger] handshake_mates(other, r->Ok_0),
;

/// `Builder::build_responder`. The claim is that of `Builder::build_initiator`, for
/// the other end.
pub assume_specification<'builder>[ snow::Builder::<'builder>::build_responder ](
    builder: snow::Builder<'builder>,
) -> (r: Result<HandshakeState, snow::Error>)
    requires
        builder_setup(builder) matches Some((_, Some(key), _)) && key.len() == NOISE_KEY,
    ensures
        setup_ready(builder_setup(builder)) ==> (r is Ok <==> setup_psk(
            builder_setup(builder),
        ).len() == NOISE_KEY),
        setup_ready(builder_setup(builder)) && r is Err ==> snow_error_text(r->Err_0)
            == "initialization error: ValidatePskLengths"@,
        setup_ready(builder_setup(builder)) && r is Ok ==> handshake_standing(r->Ok_0) == Some(
            (false, setup_psk(builder_setup(builder)), 0nat),
        ),
        setup_ready(builder_setup(builder)) && r is Ok ==> Some(handshake_local_key(r->Ok_0))
            == setup_key(builder_setup(builder)),
        forall|other: HandshakeState|
            setup_ready(builder_setup(builder)) && r is Ok && handshake_standing(other) == Some(
                (true, setup_psk(builder_setup(builder)), 0nat),
            ) ==> #[trigger] handshake_mates(r->Ok_0, other),
;

// ---------------------------------------------------------------------------
// The handshake
// ---------------------------------------------------------------------------

/// What a call that fills a buffer came to: the bytes that it put there, or the
/// words of the error.
pub open spec fn outcome(r: Result<usize, snow::Error>, buf: Seq<u8>) -> Result<
    Seq<u8>,
    Seq<char>,
> {
    match r {
        Ok(n) => Ok(buf.take(n as int)),
        Err(e) => Err(snow_error_text(e)),
    }
}

/// It is this end's turn to write: the initiator writes the first and the third
/// message, the responder the second.
pub open spec fn handshake_turn(initiator: bool, done: nat) -> bool {
    done < 3 && initiator == (done % 2 == 0)
}

/// The length of a handshake message without payload.
pub open spec fn handshake_message_len(done: nat) -> nat {
    if done == 0 {
        48
    } else if done == 1 {
        96
    } else {
        64
    }
}

/// Calls `HandshakeState::write_message`, which needs a buffer that is large enough.
/// The claims, for an empty payload: it succeeds in turn and not otherwise; the
/// message has the length that the protocol gives it; the other end can read it. The
/// private key stays.
/// The message holds fresh random key material, so its bytes are not stated.
#[verifier::external_body]
pub(crate) fn handshake_write(
    h: &mut HandshakeState,
    payload: &[u8],
    message: &mut [u8],
) -> (r: Result<usize, snow::Error>)
    requires
        old(message)@.len() == NOISE_MAX_MESSAGE,
    ensures
        final(message)@.len() == old(message)@.len(),
        handshake_standing(*old(h)) is Some && r is Ok ==> r->Ok_0 <= final(message)@.len(),
        handshake_standing(*old(h)) is Some ==> handshake_local_key(*final(h))
            == handshake_local_key(*old(h)),
        handshake_standing(*old(h)) matches Some((initiator, psk, done)) ==> payload@.len() == 0
            ==> (r is Ok <==> handshake_turn(initiator, done)),
        handshake_standing(*old(h)) matches Some((initiator, psk, done)) ==> payload@.len() == 0
            && r is Ok ==> r->Ok_0 == handshake_message_len(done) && handshake_standing(*final(h))
            == Some((initiator, psk, done + 1)),
        forall|other: HandshakeState| #[trigger]
            handshake_mates(other, *old(h)) && payload@.len() == 0 && r is Ok ==> (handshake_read(
                other,
                final(message)@.take(r->Ok_0 as int),
            ) matches Ok(next) && handshake_mates(*final(h), next)),
{
    h.write_message(payload, message)
}

/// `HandshakeState::read_message`, with a buffer that holds any payload. The
/// claims: the state and the message decide what becomes of the state; the private
/// key stays; it fails out of turn, and for a message that is too long.
pub assume_specification[ snow::HandshakeState::read_message ](
    h: &mut HandshakeState,
    message: &[u8],
    payload: &mut [u8],
) -> (r: Result<usize, snow::Error>)
    ensures
        final(payload)@.len() == old(payload)@.len(),
        handshake_standing(*old(h)) is Some && r is Ok ==> r->Ok_0 <= final(payload)@.len(),
        handshake_standing(*old(h)) is Some ==> handshake_local_key(*final(h))
            == handshake_local_key(*old(h)),
        handshake_standing(*old(h)) is Some && old(payload)@.len() == NOISE_MAX_MESSAGE ==> (
        match r {
            Ok(_) => handshake_read(*old(h), message@) == Ok::<HandshakeState, Seq<char>>(
                *final(h),
            ),
            Err(e) => handshake_read(*old(h), message@) == Err::<HandshakeState, Seq<char>>(
                snow_error_text(e),
            ),
        }),
        handshake_standing(*old(h)) matches Some((initiator, psk, done)) ==> r is Ok ==> done < 3
            && !handshake_turn(initiator, done) && handshake_standing(*final(h)) == Some(
            (initiator, psk, done + 1),
        ),
        message@.len() > NOISE_MAX_MESSAGE ==> r is Err && snow_error_text(r->Err_0)
            == "input error"@,
;

/// `HandshakeState::into_transport_mode`. The claims: it takes a finished
/// handshake and no other; the nonces start at 0; the two ends of one handshake
/// get ciphers that decrypt what the other encrypts.
pub assume_specification[ snow::HandshakeState::into_transport_mode ](h: HandshakeState) -> (r:
    Result<TransportState, snow::Error>)
    ensures
        handshake_standing(h) matches Some((initiator, psk, done)) ==> (r is Ok <==> done >= 3),
        handshake_standing(h) is Some && r is Err ==> snow_error_text(r->Err_0)
            == "state error: HandshakeNotFinished"@,
        handshake_standing(h) is Some && r is Ok ==> transport_sender(r->Ok_0) == Some(
            (handshake_ciphers(h).0, 0u64),
        ) && transport_receiver(r->Ok_0) == Some((handshake_ciphers(h).1, 0u64)),
        forall|other: HandshakeState|
            #![trigger handshake_mates(h, other)]
            #![trigger handshake_mates(other, h)]
            (handshake_mates(h, other) || handshake_mates(other, h)) && r is Ok
                ==> handshake_ciphers(other) == (handshake_ciphers(h).1, handshake_ciphers(h).0),
;

// ---------------------------------------------------------------------------
// Transport
// ---------------------------------------------------------------------------

/// The message that encryption with a cipher and its next nonce makes of a payload,
/// or the words of the error.
pub open spec fn noise_sent(sender: (Seq<u8>, u64), payload: Seq<u8>) -> Result<
    Seq<u8>,
    Seq<char>,
> {
    if payload.len() + NOISE_TAG > NOISE_MAX_MESSAGE {
        Err("input error"@)
    } else if sender.1 == u64::MAX {
        Err("state error: Exhausted"@)
    } else {
        Ok(noise_seal(sender.0, sender.1, payload))
    }
}

/// The payload that decryption with a cipher and its next nonce makes of a message,
/// or the words of the error.
pub open spec fn noise_received(receiver: (Seq<u8>, u64), msg: Seq<u8>) -> Result<
    Seq<u8>,
    Seq<char>,
> {
    if msg.len() > NOISE_MAX_MESSAGE {
        Err("input error"@)
    } else if msg.len() < NOISE_TAG {
        Err("decrypt error"@)
    } else if receiver.1 == u64::MAX {
        Err("state error: Exhausted"@)
    } else {
        match noise_open(receiver.0, receiver.1, msg) {
            Some(payload) => Ok(payload),
            None => Err("decrypt error"@),
        }
    }
}

/// A cipher with its next nonce, after it was used or left unused.
pub open spec fn noise_used(cipher: (Seq<u8>, u64), used: bool) -> (Seq<u8>, u64) {
    (cipher.0, if used { (cipher.1 + 1) as u64 } else { cipher.1 })
}

/// Calls `TransportState::write_message`, with a buffer that holds any message.
/// The claims: whatever leaves room for the tag is encrypted, until the nonces run
/// out, and can be decrypted with the same cipher and nonce.
#[verifier::external_body]
pub(crate) fn transport_write(
    t: &mut TransportState,
    payload: &[u8],
    message: &mut [u8],
) -> (r: Result<usize, snow::Error>)
    requires
        old(message)@.len() == NOISE_MAX_MESSAGE,
    ensures
        final(message)@.len() == old(message)@.len(),
        transport_sender(*old(t)) is Some && r is Ok ==> r->Ok_0 <= final(message)@.len(),
        transport_receiver(*final(t)) == transport_receiver(*old(t)),
        transport_sender(*old(t)) matches Some(sender) ==> outcome(r, final(message)@)
            == noise_sent(sender, payload@),
        transport_sender(*old(t)) matches Some(sender) ==> transport_sender(*final(t)) == Some(
            noise_used(sender, r is Ok),
        ),
        transport_sender(*old(t)) matches Some((cipher, nonce)) ==> r is Ok ==> r->Ok_0
            == payload@.len() + NOISE_TAG && noise_open(
            cipher,
            nonce,
            noise_seal(cipher, nonce, payload@),
        ) == Some(payload@),
{
    t.write_message(payload, message)
}

/// `TransportState::read_message`, with a buffer that holds any payload. The
/// claim: a message that passes for one made with the session's cipher and next
/// nonce is decrypted, and any other is refused.
pub assume_specification[ snow::TransportState::read_message ](
    t: &mut TransportState,
    payload: &[u8],
    message: &mut [u8],
) -> (r: Result<usize, snow::Error>)
    ensures
        final(message)@.len() == old(message)@.len(),
        transport_receiver(*old(t)) is Some && r is Ok ==> r->Ok_0 <= final(message)@.len(),
        transport_sender(*final(t)) == transport_sender(*old(t)),
        transport_receiver(*old(t)) matches Some(receiver) ==> old(message)@.len()
            == NOISE_MAX_MESSAGE ==> outcome(r, final(message)@) == noise_received(
            receiver,
            payload@,
        ),
        transport_receiver(*old(t)) matches Some(receiver) ==> transport_receiver(*final(t))
            == Some(noise_used(receiver, r is Ok)),
        transport_receiver(*old(t)) is Some && r is Ok ==> r->Ok_0 == payload@.len() - NOISE_TAG,
;

} // verus!
