//! The transform that encrypts with the Noise protocol.
use crate::error::TransformError;
use crate::shown::{
    cannot_show, debug_field_bytes, debug_field_step, debug_finish, debug_struct,
    debug_struct_begun, formatter_written, showed, Shown, ShownValue,
};
use crate::snow_link::{
    builder_setup, error_text, generate_private_key, handshake_ciphers, handshake_local_key,
    handshake_mates, handshake_message_len, handshake_read, handshake_standing, handshake_turn,
    handshake_write, noise_open, noise_protocol, noise_received, noise_sent, noise_used,
    parse_params, snow_error_text, transport_receiver, transport_sender, transport_write, NOISE_KEY,
    NOISE_MAX_MESSAGE, NOISE_TAG,
};
use crate::transform::PacketDataTransform;
use snow::{HandshakeState, TransportState};
use std::fmt::{Debug, Formatter};
use vstd::prelude::*;

verus! {

/// Which step of the handshake comes next.
#[derive(Debug, Clone, Copy, PartialEq, Eq, Structural)]
pub enum NoiseProtocolStep {
    /// The server waits for the client's first message.
    ServerStart,
    /// The server has answered and waits for the client's second message.
    ServerWait,
    /// The client sends its first message.
    ClientStart,
    /// The client waits for the server's answer.
    ClientWait,
}

/// Where a Noise transform stands.
#[allow(inconsistent_fields)]
pub enum NoiseState {
    /// A handshake step failed.
    Invalid,
    /// The handshake is going on.
    Handshake {
        state: NoiseProtocolStep,
        noise: HandshakeState,
        handshake_bytes: Option<Vec<u8>>,
    },
    /// Data can be encrypted and decrypted.
    Transport { noise: TransportState, final_handshake_bytes: Option<Vec<u8>> },
}

/// How a state is shown for debugging: without what belongs to the protocol. An
/// invalid state is not to be seen.
pub open spec fn state_shown(state: NoiseState) -> Option<Shown> {
    match state {
        NoiseState::Invalid => None,
        NoiseState::Handshake { state, handshake_bytes, .. } => Some(
            Shown {
                name: "NoiseState::Handshake"@,
                fields: seq![
                    ("state"@, ShownValue::Step(state)),
                    ("handshake_bytes"@, ShownValue::Bytes(waiting(handshake_bytes))),
                ],
            },
        ),
        NoiseState::Transport { final_handshake_bytes, .. } => Some(
            Shown {
                name: "NoiseState::Transport"@,
                fields: seq![
                    ("final_handshake_bytes"@, ShownValue::Bytes(waiting(final_handshake_bytes))),
                ],
            },
        ),
    }
}

impl Debug for NoiseState {
    fn fmt(&self, f: &mut Formatter<'_>) -> (r: std::fmt::Result)
        ensures
            match state_shown(*self) {
                Some(shown) => showed(
                    formatter_written(*old(f)),
                    formatter_written(*final(f)),
                    shown,
                    r,
                ),
                None => r is Err,
            },
    {
        match self {
            NoiseState::Invalid => cannot_show(),
            NoiseState::Handshake { state, noise: _, handshake_bytes } => {
                let mut d = debug_struct(f, "NoiseState::Handshake");
                debug_field_step(&mut d, "state", state);
                debug_field_bytes(&mut d, "handshake_bytes", handshake_bytes);
                assert(debug_struct_begun(d).1.fields =~= state_shown(*self)->0.fields);
                debug_finish(d)
            },
            NoiseState::Transport { noise: _, final_handshake_bytes } => {
                let mut d = debug_struct(f, "NoiseState::Transport");
                debug_field_bytes(&mut d, "final_handshake_bytes", final_handshake_bytes);
                assert(debug_struct_begun(d).1.fields =~= state_shown(*self)->0.fields);
                debug_finish(d)
            },
        }
    }
}

/// Encrypts communications with the Noise protocol.
#[derive(Debug)]
pub struct NoisePacketDataTransform {
    noise_state: NoiseState,
}

/// What a Noise transform holds.
#[verifier::ext_equal]
pub enum NoiseView {
    /// A handshake step failed.
    Invalid,
    /// The next step, the handshake, and the message that waits to be fetched.
    Handshake { state: NoiseProtocolStep, noise: HandshakeState, bytes: Option<Seq<u8>> },
    /// The two ciphers, each with its next nonce, and the last handshake message,
    /// while it waits to be fetched.
    Transport { sender: (Seq<u8>, u64), receiver: (Seq<u8>, u64), bytes: Option<Seq<u8>> },
}

/// The bytes, if there are any.
pub open spec fn waiting(bytes: Option<Vec<u8>>) -> Option<Seq<u8>> {
    match bytes {
        Some(bytes) => Some(bytes@),
        None => None,
    }
}

/// What a state holds.
pub open spec fn state_view(state: NoiseState) -> NoiseView {
    match state {
        NoiseState::Invalid => NoiseView::Invalid,
        NoiseState::Handshake { state, noise, handshake_bytes } => NoiseView::Handshake {
            state,
            noise,
            bytes: waiting(handshake_bytes),
        },
        NoiseState::Transport { noise, final_handshake_bytes } => NoiseView::Transport {
            sender: transport_sender(noise)->0,
            receiver: transport_receiver(noise)->0,
            bytes: waiting(final_handshake_bytes),
        },
    }
}

impl View for NoisePacketDataTransform {
    type V = NoiseView;

    closed spec fn view(&self) -> NoiseView {
        state_view(self.noise_state)
    }
}

/// How many handshake messages have gone back and forth before a step.
pub open spec fn messages_before(state: NoiseProtocolStep) -> nat {
    match state {
        NoiseProtocolStep::ClientStart => 0,
        NoiseProtocolStep::ServerStart => 0,
        NoiseProtocolStep::ClientWait => 1,
        NoiseProtocolStep::ServerWait => 2,
    }
}

/// The step is one of the client's.
pub open spec fn of_client(state: NoiseProtocolStep) -> bool {
    state is ClientStart || state is ClientWait
}

/// The handshake stands where the step expects it.
pub open spec fn step_fits(state: NoiseProtocolStep, noise: HandshakeState) -> bool {
    &&& handshake_standing(noise) matches Some((initiator, psk, done))
    &&& initiator == of_client(state)
    &&& done == messages_before(state)
}

/// A handshake stands where its next step expects it, and a session is one of this
/// library's protocol.
pub open spec fn state_sound(state: NoiseState) -> bool {
    match state {
        NoiseState::Invalid => true,
        NoiseState::Handshake { state, noise, .. } => step_fits(state, noise),
        NoiseState::Transport { noise, .. } => transport_sender(noise) is Some
            && transport_receiver(noise) is Some,
    }
}

impl NoisePacketDataTransform {
    #[verifier::type_invariant]
    closed spec fn sound(&self) -> bool {
        state_sound(self.noise_state)
    }
}

/// The handshake has moved on by one message.
pub open spec fn handshake_moved(pre: HandshakeState, post: HandshakeState) -> bool {
    &&& handshake_local_key(post) == handshake_local_key(pre)
    &&& handshake_standing(pre) matches Some((initiator, psk, done))
    &&& handshake_standing(post) == Some((initiator, psk, done + 1))
}

/// Writing a handshake message made `post` out of `pre` and gave `msg`, which the
/// other end can read.
pub open spec fn handshake_wrote(pre: HandshakeState, post: HandshakeState, msg: Seq<u8>) -> bool {
    &&& handshake_standing(pre) matches Some((initiator, psk, done))
    &&& msg.len() == handshake_message_len(done)
    &&& handshake_moved(pre, post)
    &&& forall|other: HandshakeState| #[trigger]
        handshake_mates(other, pre) ==> (handshake_read(other, msg) matches Ok(next)
            && handshake_mates(post, next))
}

/// The session that a finished handshake starts. The other end of the handshake
/// starts the one that goes with it.
pub open spec fn session_of(
    h: HandshakeState,
    sender: (Seq<u8>, u64),
    receiver: (Seq<u8>, u64),
) -> bool {
    &&& sender == (handshake_ciphers(h).0, 0u64)
    &&& receiver == (handshake_ciphers(h).1, 0u64)
    &&& forall|other: HandshakeState|
        #![trigger handshake_mates(h, other)]
        #![trigger handshake_mates(other, h)]
        handshake_mates(h, other) || handshake_mates(other, h)
            ==> handshake_ciphers(other) == (handshake_ciphers(h).1, handshake_ciphers(h).0)
}

/// Writing the last handshake message gave `msg` and finished the handshake.
pub open spec fn wrote_last(
    pre: HandshakeState,
    msg: Seq<u8>,
    sender: (Seq<u8>, u64),
    receiver: (Seq<u8>, u64),
) -> bool {
    exists|post: HandshakeState| #[trigger]
        handshake_wrote(pre, post, msg) && session_of(post, sender, receiver)
}

/// The call failed, for the reason that the words give.
pub open spec fn noise_failed<T>(r: Result<T, TransformError>, words: Seq<char>) -> bool {
    r matches Err(TransformError::Noise(w)) && w@ == words
}

/// What a step of the handshake does with a message. Each step but the client's
/// first reads the message, and fails if that fails. Each but the server's last
/// then writes a message of its own.
pub open spec fn advanced(
    state: NoiseProtocolStep,
    noise: HandshakeState,
    msg: Seq<u8>,
    post: NoiseView,
    r: Result<(), TransformError>,
) -> bool {
    match state {
        NoiseProtocolStep::ClientStart => {
            &&& r is Ok
            &&& post matches NoiseView::Handshake { state: next, noise: written, bytes: Some(out) }
            &&& next is ClientWait
            &&& handshake_wrote(noise, written, out)
        },
        _ => match handshake_read(noise, msg) {
            Err(words) => {
                &&& noise_failed(r, words)
                &&& msg.len() > NOISE_MAX_MESSAGE ==> words == "input error"@
                &&& post is Invalid
            },
            Ok(read) => {
                &&& msg.len() <= NOISE_MAX_MESSAGE
                &&& handshake_moved(noise, read)
                &&& r is Ok
                &&& match state {
                    NoiseProtocolStep::ServerStart => {
                        &&& post matches NoiseView::Handshake {
                            state: next,
                            noise: written,
                            bytes: Some(out),
                        }
                        &&& next is ServerWait
                        &&& handshake_wrote(read, written, out)
                    },
                    NoiseProtocolStep::ClientWait => {
                        &&& post matches NoiseView::Transport { sender, receiver, bytes: Some(out) }
                        &&& wrote_last(read, out, sender, receiver)
                    },
                    _ => {
                        &&& post matches NoiseView::Transport { sender, receiver, bytes: None }
                        &&& session_of(read, sender, receiver)
                    },
                }
            },
        },
    }
}

/// What a call that fills a buffer gives: the part that was filled, or the error.
pub fn filled_part(r: Result<usize, snow::Error>, buf: Vec<u8>) -> (part: Result<
    Vec<u8>,
    TransformError,
>)
    requires
        r matches Ok(n) ==> n <= buf@.len(),
    ensures
        match r {
            Ok(n) => part matches Ok(bytes) && bytes@ == buf@.take(n as int),
            Err(e) => noise_failed(part, snow_error_text(e)),
        },
{
    match r {
        Ok(n) => {
            let mut part = buf;
            part.truncate(n);
            Ok(part)
        },
        Err(e) => Err(TransformError::Noise(error_text(e))),
    }
}

/// Reads a handshake message.
fn read_handshake(noise: &mut HandshakeState, msg: &[u8]) -> (r: Result<(), TransformError>)
    requires
        handshake_standing(*old(noise)) is Some,
    ensures
        match handshake_read(*old(noise), msg@) {
            Ok(read) => r is Ok && *final(noise) == read && msg@.len() <= NOISE_MAX_MESSAGE,
            Err(words) => noise_failed(r, words) && (msg@.len() > NOISE_MAX_MESSAGE ==> words
                == "input error"@),
        },
        r is Ok ==> handshake_moved(*old(noise), *final(noise)),
{
    let mut buf: Vec<u8> = vec![0u8; NOISE_MAX_MESSAGE];
    match noise.read_message(msg, buf.as_mut_slice()) {
        Ok(_) => Ok(()),
        Err(e) => Err(TransformError::Noise(error_text(e))),
    }
}

/// Writes a handshake message.
fn write_handshake(noise: &mut HandshakeState) -> (r: Result<Vec<u8>, TransformError>)
    requires
        handshake_standing(*old(noise)) matches Some((initiator, psk, done)) && handshake_turn(
            initiator,
            done,
        ),
    ensures
        r matches Ok(msg) && handshake_wrote(*old(noise), *final(noise), msg@),
{
    let mut buf: Vec<u8> = vec![0u8; NOISE_MAX_MESSAGE];
    let empty: Vec<u8> = Vec::new();
    let written = handshake_write(noise, empty.as_slice(), buf.as_mut_slice());
    filled_part(written, buf)
}

/// Transitions into transport mode now that the handshake is complete.
fn into_session(noise: HandshakeState) -> (r: Result<TransportState, TransformError>)
    requires
        handshake_standing(noise) matches Some((initiator, psk, done)) && done == 3,
    ensures
        r matches Ok(t) && transport_sender(t) matches Some(sender) && transport_receiver(
            t,
        ) matches Some(receiver) && session_of(noise, sender, receiver),
{
    match noise.into_transport_mode() {
        Ok(t) => Ok(t),
        Err(e) => Err(TransformError::Noise(error_text(e))),
    }
}

/// Takes a step of the handshake.
fn advance(state: NoiseProtocolStep, noise: HandshakeState, msg: &[u8]) -> (r: Result<
    NoiseState,
    TransformError,
>)
    requires
        step_fits(state, noise),
    ensures
        match r {
            Ok(next) => state_sound(next) && advanced(
                state,
                noise,
                msg@,
                state_view(next),
                Ok::<(), TransformError>(()),
            ),
            Err(e) => advanced(
                state,
                noise,
                msg@,
                NoiseView::Invalid,
                Err::<(), TransformError>(e),
            ),
        },
{
    let mut noise = noise;
    let next = match state {
        NoiseProtocolStep::ClientStart => {
            // -> e
            let bytes = write_handshake(&mut noise)?;
            // next, wait for e, ee, s, es from the server
            NoiseState::Handshake {
                state: NoiseProtocolStep::ClientWait,
                noise,
                handshake_bytes: Some(bytes),
            }
        },
        NoiseProtocolStep::ServerStart => {
            // <- e
            if let Err(e) = read_handshake(&mut noise, msg) {
                return Err(e);
            }
            // -> e, ee, s, es
            let bytes = write_handshake(&mut noise)?;
            // next, wait for s, se from the client
            NoiseState::Handshake {
                state: NoiseProtocolStep::ServerWait,
                noise,
                handshake_bytes: Some(bytes),
            }
        },
        NoiseProtocolStep::ClientWait => {
            // <- e, ee, s, es
            if let Err(e) = read_handshake(&mut noise, msg) {
                return Err(e);
            }
            // -> s, se
            let ghost read = noise;
            let bytes = write_handshake(&mut noise)?;
            let session = into_session(noise)?;
            let next = NoiseState::Transport { noise: session, final_handshake_bytes: Some(bytes) };
            assert(wrote_last(read, bytes@, state_view(next)->sender, state_view(next)->receiver));
            next
        },
        NoiseProtocolStep::ServerWait => {
            // <- s, se
            if let Err(e) = read_handshake(&mut noise, msg) {
                return Err(e);
            }
            let session = into_session(noise)?;
            NoiseState::Transport { noise: session, final_handshake_bytes: None }
        },
    };
    Ok(next)
}

/// A handshake that has just been made. It fits any other that has just been made
/// for the other end with the same pre-shared key.
pub open spec fn handshake_fresh(h: HandshakeState, initiator: bool, psk: Seq<u8>) -> bool {
    &&& handshake_standing(h) == Some((initiator, psk, 0nat))
    &&& initiator ==> forall|other: HandshakeState|
        handshake_standing(other) == Some((false, psk, 0nat)) ==> #[trigger] handshake_mates(
            other,
            h,
        )
    &&& !initiator ==> forall|other: HandshakeState|
        handshake_standing(other) == Some((true, psk, 0nat)) ==> #[trigger] handshake_mates(
            h,
            other,
        )
}

/// What the two constructors return for a pre-shared key.
pub open spec fn made(
    r: Result<NoisePacketDataTransform, TransformError>,
    step: NoiseProtocolStep,
    psk: Seq<u8>,
) -> bool {
    if psk.len() == NOISE_KEY {
        &&& r matches Ok(t)
        &&& t@ matches NoiseView::Handshake { state, noise, bytes: None }
        &&& state == step
        &&& handshake_fresh(noise, of_client(step), psk)
    } else {
        noise_failed(r, "initialization error: ValidatePskLengths"@)
    }
}

/// The private key of a transform in its handshake.
pub open spec fn local_key(t: NoisePacketDataTransform) -> Seq<u8> {
    match t@ {
        NoiseView::Handshake { noise, .. } => handshake_local_key(noise),
        _ => Seq::empty(),
    }
}

/// A builder for the protocol of this library.
fn noise_builder<'a>() -> (r: Result<snow::Builder<'a>, snow::Error>)
    ensures
        r matches Ok(builder) && builder_setup(builder) == Some(
            (noise_protocol(), None::<Seq<u8>>, Map::<u8, Seq<u8>>::empty()),
        ),
{
    match parse_params("Noise_XXpsk3_25519_ChaChaPoly_BLAKE2s") {
        Ok(params) => Ok(snow::Builder::new(params)),
        Err(e) => Err(e),
    }
}

impl NoisePacketDataTransform {
    /// The side that waits for the handshake to be opened, with a private key that
    /// is drawn at random. The pre-shared key must be 32 bytes long.
    pub fn server(psk: &[u8]) -> (r: Result<Self, TransformError>)
        ensures
            made(r, NoiseProtocolStep::ServerStart, psk@),
            r is Ok ==> local_key(r->Ok_0).len() == NOISE_KEY,
    {
        let builder = match noise_builder() {
            Ok(builder) => builder,
            Err(e) => return Err(TransformError::Noise(error_text(e))),
        };
        match generate_private_key(&builder) {
            Ok(key) => Self::server_with_key(psk, key.as_slice()),
            Err(e) => Err(TransformError::Noise(error_text(e))),
        }
    }

    /// The side that opens the handshake, with a private key that is drawn at
    /// random. The pre-shared key must be 32 bytes long.
    pub fn client(psk: &[u8]) -> (r: Result<Self, TransformError>)
        ensures
            made(r, NoiseProtocolStep::ClientStart, psk@),
            r is Ok ==> local_key(r->Ok_0).len() == NOISE_KEY,
    {
        let builder = match noise_builder() {
            Ok(builder) => builder,
            Err(e) => return Err(TransformError::Noise(error_text(e))),
        };
        match generate_private_key(&builder) {
            Ok(key) => Self::client_with_key(psk, key.as_slice()),
            Err(e) => Err(TransformError::Noise(error_text(e))),
        }
    }

    /// The side that waits for the handshake to be opened, with the given private
    /// key. Both keys are 32 bytes long.
    pub fn server_with_key(psk: &[u8], key: &[u8]) -> (r: Result<Self, TransformError>)
        requires
            key@.len() == NOISE_KEY,
        ensures
            made(r, NoiseProtocolStep::ServerStart, psk@),
            r is Ok ==> local_key(r->Ok_0) == key@,
    {
        let builder = match noise_builder() {
            Ok(builder) => builder,
            Err(e) => return Err(TransformError::Noise(error_text(e))),
        };
        match builder.local_private_key(key).psk(3, psk).build_responder() {
            Ok(noise) => Ok(
                Self {
                    noise_state: NoiseState::Handshake {
                        state: NoiseProtocolStep::ServerStart,
                        noise,
                        handshake_bytes: None,
                    },
                },
            ),
            Err(e) => Err(TransformError::Noise(error_text(e))),
        }
    }

    /// The side that opens the handshake, with the given private key. Both keys are 32
    /// bytes long.
    pub fn client_with_key(psk: &[u8], key: &[u8]) -> (r: Result<Self, TransformError>)
        requires
            key@.len() == NOISE_KEY,
        ensures
            made(r, NoiseProtocolStep::ClientStart, psk@),
            r is Ok ==> local_key(r->Ok_0) == key@,
    {
        let builder = match noise_builder() {
            Ok(builder) => builder,
            Err(e) => return Err(TransformError::Noise(error_text(e))),
        };
        match builder.local_private_key(key).psk(3, psk).build_initiator() {
            Ok(noise) => Ok(
                Self {
                    noise_state: NoiseState::Handshake {
                        state: NoiseProtocolStep::ClientStart,
                        noise,
                        handshake_bytes: None,
                    },
                },
            ),
            Err(e) => Err(TransformError::Noise(error_text(e))),
        }
    }
}

impl PacketDataTransform for NoisePacketDataTransform {
    open spec fn in_handshake(&self) -> bool {
        self@ is Handshake
    }

    open spec fn opens_handshake(&self) -> bool {
        self@ matches NoiseView::Handshake { state, .. } && state is ClientStart
    }

    open spec fn can_step(&self) -> bool {
        !(self@ is Invalid)
    }

    open spec fn intact(&self) -> bool {
        !(self@ is Invalid)
    }

    open spec fn payload_limit(&self) -> Option<usize> {
        Some((NOISE_MAX_MESSAGE - NOISE_TAG) as usize)
    }

    /// An empty message leaves a server that waits for the client where it is. Any
    /// failure leaves the state invalid.
    open spec fn steps(&self, msg: Seq<u8>, post: &Self, r: Result<(), TransformError>) -> bool {
        match self@ {
            NoiseView::Invalid => false,
            NoiseView::Transport { .. } => {
                &&& r == Err::<(), TransformError>(TransformError::HandshakeOver)
                &&& post@ is Invalid
            },
            NoiseView::Handshake { state, noise, bytes } => if state is ServerStart && msg.len()
                == 0 {
                &&& r is Ok
                &&& post@ == self@
            } else {
                advanced(state, noise, msg, post@, r)
            },
        }
    }

    open spec fn yields(&self, post: &Self, r: Result<Option<Seq<u8>>, TransformError>) -> bool {
        match self@ {
            NoiseView::Invalid => false,
            NoiseView::Handshake { state, noise, bytes } => {
                &&& r == Ok::<Option<Seq<u8>>, TransformError>(bytes)
                &&& post@ == NoiseView::Handshake { state, noise, bytes: None }
            },
            NoiseView::Transport { sender, receiver, bytes } => {
                &&& r == Ok::<Option<Seq<u8>>, TransformError>(bytes)
                &&& post@ == NoiseView::Transport { sender, receiver, bytes: None }
            },
        }
    }

    open spec fn reads(
        &self,
        msg: Seq<u8>,
        post: &Self,
        r: Result<Seq<u8>, TransformError>,
    ) -> bool {
        match self@ {
            NoiseView::Invalid => false,
            NoiseView::Handshake { .. } => {
                &&& r == Err::<Seq<u8>, TransformError>(TransformError::HandshakePending)
                &&& post@ == self@
            },
            NoiseView::Transport { sender, receiver, bytes } => {
                &&& match noise_received(receiver, msg) {
                    Ok(payload) => r == Ok::<Seq<u8>, TransformError>(payload),
                    Err(words) => noise_failed(r, words),
                }
                &&& r is Ok ==> r->Ok_0.len() + NOISE_TAG == msg.len()
                &&& post@ == NoiseView::Transport {
                    sender,
                    receiver: noise_used(receiver, r is Ok),
                    bytes,
                }
            },
        }
    }

    open spec fn writes(
        &self,
        payload: Seq<u8>,
        post: &Self,
        r: Result<Seq<u8>, TransformError>,
    ) -> bool {
        match self@ {
            NoiseView::Invalid => false,
            NoiseView::Handshake { .. } => {
                &&& r == Err::<Seq<u8>, TransformError>(TransformError::HandshakePending)
                &&& post@ == self@
            },
            NoiseView::Transport { sender, receiver, bytes } => {
                &&& match noise_sent(sender, payload) {
                    Ok(msg) => {
                        &&& r == Ok::<Seq<u8>, TransformError>(msg)
                        &&& msg.len() == payload.len() + NOISE_TAG
                        &&& noise_open(sender.0, sender.1, msg) == Some(payload)
                    },
                    Err(words) => noise_failed(r, words),
                }
                &&& post@ == NoiseView::Transport {
                    sender: noise_used(sender, r is Ok),
                    receiver,
                    bytes,
                }
            },
        }
    }

    fn handshaking(&self) -> (b: bool) {
        matches!(self.noise_state, NoiseState::Handshake { .. })
    }

    fn need_to_start_handshake(&mut self) -> (b: bool) {
        matches!(
            self.noise_state,
            NoiseState::Handshake { state: NoiseProtocolStep::ClientStart, .. }
        )
    }

    fn poisoned(&self) -> (b: bool) {
        matches!(self.noise_state, NoiseState::Invalid)
    }

    /// A message of the Noise protocol is limited in length, and encryption adds a
    /// tag to it.
    fn max_payload_bytes(&self) -> (m: Option<usize>) {
        Some(NOISE_MAX_MESSAGE - NOISE_TAG)
    }

    fn handshake_step(&mut self, msg: &[u8]) -> (r: Result<(), TransformError>) {
        if matches!(
            self.noise_state,
            NoiseState::Handshake { state: NoiseProtocolStep::ServerStart, .. }
        ) && msg.len() == 0 {
            // the server doesn't kick off the handshake
            return Ok(());
        }
        proof {
            use_type_invariant(&*self);
        }
        let mut state = NoiseState::Invalid;
        std::mem::swap(&mut self.noise_state, &mut state);
        match state {
            NoiseState::Invalid => Ok(()),
            NoiseState::Handshake { state, noise, handshake_bytes: _ } => match advance(
                state,
                noise,
                msg,
            ) {
                Ok(next) => {
                    self.noise_state = next;
                    Ok(())
                },
                Err(e) => Err(e),
            },
            NoiseState::Transport { .. } => Err(TransformError::HandshakeOver),
        }
    }

    fn handshake_bytes(&mut self) -> (r: Result<Option<Vec<u8>>, TransformError>) {
        proof {
            use_type_invariant(&*self);
        }
        let mut state = NoiseState::Invalid;
        std::mem::swap(&mut self.noise_state, &mut state);
        match state {
            NoiseState::Invalid => Ok(None),
            NoiseState::Handshake { state, noise, mut handshake_bytes } => {
                let bytes = handshake_bytes.take();
                self.noise_state = NoiseState::Handshake { state, noise, handshake_bytes };
                Ok(bytes)
            },
            NoiseState::Transport { noise, mut final_handshake_bytes } => {
                let bytes = final_handshake_bytes.take();
                self.noise_state = NoiseState::Transport { noise, final_handshake_bytes };
                Ok(bytes)
            },
        }
    }

    fn read_payload(&mut self, msg: &[u8]) -> (r: Result<Vec<u8>, TransformError>) {
        proof {
            use_type_invariant(&*self);
        }
        if matches!(self.noise_state, NoiseState::Handshake { .. }) {
            return Err(TransformError::HandshakePending);
        }
        let mut state = NoiseState::Invalid;
        std::mem::swap(&mut self.noise_state, &mut state);
        match state {
            NoiseState::Transport { mut noise, final_handshake_bytes } => {
                let mut payload: Vec<u8> = vec![0u8; NOISE_MAX_MESSAGE];
                let read = noise.read_message(msg, payload.as_mut_slice());
                self.noise_state = NoiseState::Transport { noise, final_handshake_bytes };
                filled_part(read, payload)
            },
            _ => Err(TransformError::HandshakePending),
        }
    }

    fn write_message(&mut self, payload: &[u8]) -> (r: Result<Vec<u8>, TransformError>) {
        proof {
            use_type_invariant(&*self);
        }
        if matches!(self.noise_state, NoiseState::Handshake { .. }) {
            return Err(TransformError::HandshakePending);
        }
        let mut state = NoiseState::Invalid;
        std::mem::swap(&mut self.noise_state, &mut state);
        match state {
            NoiseState::Transport { mut noise, final_handshake_bytes } => {
                let mut msg: Vec<u8> = vec![0u8; NOISE_MAX_MESSAGE];
                let written = transport_write(&mut noise, payload, msg.as_mut_slice());
                self.noise_state = NoiseState::Transport { noise, final_handshake_bytes };
                filled_part(written, msg)
            },
            _ => Err(TransformError::HandshakePending),
        }
    }
}

/// The two sessions go together: what either encrypts next, the other can decrypt.
pub open spec fn noise_paired(a: NoisePacketDataTransform, b: NoisePacketDataTransform) -> bool {
    &&& a@ matches NoiseView::Transport { sender: a_sender, receiver: a_receiver, .. }
    &&& b@ matches NoiseView::Transport { sender: b_sender, receiver: b_receiver, .. }
    &&& a_sender == b_receiver
    &&& a_receiver == b_sender
}

/// What one end of a session writes, the other end reads back as it was; and they
/// go together afterwards.
pub proof fn law_noise_round_trip(
    writer: NoisePacketDataTransform,
    writer_after: NoisePacketDataTransform,
    payload: Seq<u8>,
    written: Result<Seq<u8>, TransformError>,
    reader: NoisePacketDataTransform,
    reader_after: NoisePacketDataTransform,
    read: Result<Seq<u8>, TransformError>,
)
    requires
        noise_paired(writer, reader),
        writer.writes(payload, &writer_after, written),
        written matches Ok(msg) && reader.reads(msg, &reader_after, read),
    ensures
        read == Ok::<Seq<u8>, TransformError>(payload),
        noise_paired(writer_after, reader_after),
{
}

/// A client and a server with the same pre-shared key come through the handshake:
/// no step fails, the client fetches two messages and the server one, and the
/// sessions go together in the end.
pub proof fn law_noise_handshake(
    psk: Seq<u8>,
    client: (
        NoisePacketDataTransform,
        NoisePacketDataTransform,
        NoisePacketDataTransform,
        NoisePacketDataTransform,
        NoisePacketDataTransform,
    ),
    server: (
        NoisePacketDataTransform,
        NoisePacketDataTransform,
        NoisePacketDataTransform,
        NoisePacketDataTransform,
    ),
    steps: (
        Result<(), TransformError>,
        Result<(), TransformError>,
        Result<(), TransformError>,
        Result<(), TransformError>,
    ),
    fetched: (
        Result<Option<Seq<u8>>, TransformError>,
        Result<Option<Seq<u8>>, TransformError>,
        Result<Option<Seq<u8>>, TransformError>,
    ),
)
    requires
        psk.len() == NOISE_KEY,
        made(Ok(client.0), NoiseProtocolStep::ClientStart, psk),
        made(Ok(server.0), NoiseProtocolStep::ServerStart, psk),
        client.0.steps(seq![], &client.1, steps.0),
        client.1.yields(&client.2, fetched.0),
        fetched.0 matches Ok(Some(msg)) ==> server.0.steps(msg, &server.1, steps.1),
        server.1.yields(&server.2, fetched.1),
        fetched.1 matches Ok(Some(msg)) ==> client.2.steps(msg, &client.3, steps.2),
        client.3.yields(&client.4, fetched.2),
        fetched.2 matches Ok(Some(msg)) ==> server.2.steps(msg, &server.3, steps.3),
    ensures
        steps.0 is Ok && steps.1 is Ok && steps.2 is Ok && steps.3 is Ok,
        fetched.0 matches Ok(Some(msg)) && msg.len() == 48,
        fetched.1 matches Ok(Some(msg)) && msg.len() == 96,
        fetched.2 matches Ok(Some(msg)) && msg.len() == 64,
        noise_paired(client.4, server.3),
{
    let c0 = client.0@->noise;
    let s0 = server.0@->noise;
    assert(handshake_mates(s0, c0));
}

/// The cipher that a session encrypts with, and its next nonce.
pub open spec fn sends_with(t: NoisePacketDataTransform) -> Option<(Seq<u8>, u64)> {
    match t@ {
        NoiseView::Transport { sender, .. } => Some(sender),
        _ => None,
    }
}

/// The cipher that a session decrypts with, and its next nonce.
pub open spec fn receives_with(t: NoisePacketDataTransform) -> Option<(Seq<u8>, u64)> {
    match t@ {
        NoiseView::Transport { receiver, .. } => Some(receiver),
        _ => None,
    }
}

/// A payload on its way: the writer before and after it wrote the message, the
/// reader before and after it read it, and what each call came to.
pub struct Passage {
    pub payload: Seq<u8>,
    pub writer: NoisePacketDataTransform,
    pub writer_after: NoisePacketDataTransform,
    pub written: Result<Seq<u8>, TransformError>,
    pub reader: NoisePacketDataTransform,
    pub reader_after: NoisePacketDataTransform,
    pub read: Result<Seq<u8>, TransformError>,
}

/// The payloads pass from one end of a session to the other, one after the other.
/// In between, the ends may do anything that leaves alone the cipher that the one
/// sends with and the other receives with, such as to pass payloads the other way.
pub open spec fn passing(passages: Seq<Passage>) -> bool {
    &&& forall|i: int|
        0 <= i < passages.len() ==> {
            let p = #[trigger] passages[i];
            &&& p.payload.len() + NOISE_TAG <= NOISE_MAX_MESSAGE
            &&& p.writer.writes(p.payload, &p.writer_after, p.written)
            &&& p.written matches Ok(msg) ==> p.reader.reads(msg, &p.reader_after, p.read)
        }
    &&& forall|i: int|
        0 < i < passages.len() ==> {
            &&& sends_with((#[trigger] passages[i]).writer) == sends_with(
                passages[i - 1].writer_after,
            )
            &&& receives_with(passages[i].reader) == receives_with(passages[i - 1].reader_after)
        }
}

/// Of any number of payloads that pass in one direction of a session, every one is
/// read as it was written, the empty ones too, as long as there are nonces for them;
/// and the ends go together afterwards.
pub proof fn law_noise_messages_in_order(
    passages: Seq<Passage>,
    sender: (Seq<u8>, u64),
    i: int,
)
    requires
        passing(passages),
        passages.len() > 0,
        sends_with(passages[0].writer) == Some(sender),
        receives_with(passages[0].reader) == Some(sender),
        sender.1 + passages.len() <= u64::MAX,
        0 <= i < passages.len(),
    ensures
        passages[i].written is Ok,
        passages[i].read == Ok::<Seq<u8>, TransformError>(passages[i].payload),
        sends_with(passages[i].writer_after) == Some((sender.0, (sender.1 + i + 1) as u64)),
        receives_with(passages[i].reader_after) == sends_with(passages[i].writer_after),
    decreases i,
{
    if i > 0 {
        law_noise_messages_in_order(passages, sender, i - 1);
    }
    let p = passages[i];
    assert(sends_with(p.writer) == Some((sender.0, (sender.1 + i) as u64)));
}

/// The two ends of a session can pass payloads in either direction; and what an end
/// writes does not change what it receives with, nor what it reads what it sends
/// with.
pub proof fn law_noise_both_directions(
    a: NoisePacketDataTransform,
    b: NoisePacketDataTransform,
    bytes: Seq<u8>,
    after: NoisePacketDataTransform,
    r: Result<Seq<u8>, TransformError>,
)
    requires
        noise_paired(a, b),
    ensures
        sends_with(a) is Some && sends_with(a) == receives_with(b),
        sends_with(b) is Some && sends_with(b) == receives_with(a),
        a.writes(bytes, &after, r) ==> receives_with(after) == receives_with(a),
        a.reads(bytes, &after, r) ==> sends_with(after) == sends_with(a),
{
}

/// A handshake message that cannot be read ends the handshake: the step fails with the
/// words of the error, and the transform is beyond use, so that it never gets to pass
/// data. That a message of an end with another pre-shared key cannot be read rests on
/// the cryptography, and is not stated.
pub proof fn law_unreadable_handshake_is_refused(
    t: NoisePacketDataTransform,
    msg: Seq<u8>,
    after: NoisePacketDataTransform,
    r: Result<(), TransformError>,
)
    requires
        t@ matches NoiseView::Handshake { state, noise, .. } && !(state is ClientStart)
            && handshake_read(noise, msg) is Err,
        !(t@->state is ServerStart && msg.len() == 0),
        t.steps(msg, &after, r),
    ensures
        noise_failed(r, handshake_read(t@->Handshake_noise, msg)->Err_0),
        !after.intact() && !after.can_step() && !after.in_handshake(),
{
}

/// A server is ready for data only once it has read the client's last message.
pub proof fn law_session_needs_the_last_message(
    t: NoisePacketDataTransform,
    msg: Seq<u8>,
    after: NoisePacketDataTransform,
    r: Result<(), TransformError>,
)
    requires
        t@ matches NoiseView::Handshake { state, .. } && state is ServerWait,
        t.steps(msg, &after, r),
        r is Ok,
    ensures
        after@ is Transport,
        handshake_read(t@->Handshake_noise, msg) is Ok,
{
}

/// A message that does not pass is refused, and the session is as it was: what passed
/// before passes still.
pub proof fn law_refused_message_changes_nothing(
    t: NoisePacketDataTransform,
    msg: Seq<u8>,
    after: NoisePacketDataTransform,
    r: Result<Seq<u8>, TransformError>,
)
    requires
        receives_with(t) matches Some(receiver) && noise_received(receiver, msg) is Err,
        t.reads(msg, &after, r),
    ensures
        noise_failed(r, noise_received(receives_with(t)->0, msg)->Err_0),
        after@ == t@,
{
}

/// What belongs to the protocol is not shown: states that differ in nothing else are
/// shown alike.
pub proof fn law_protocol_is_not_shown(a: NoiseState, b: NoiseState)
    requires
        match (a, b) {
            (NoiseState::Handshake { .. }, NoiseState::Handshake { .. }) => a->state == b->state
                && waiting(a->handshake_bytes) == waiting(b->handshake_bytes),
            (NoiseState::Transport { .. }, NoiseState::Transport { .. }) => waiting(
                a->final_handshake_bytes,
            ) == waiting(b->final_handshake_bytes),
            _ => false,
        },
    ensures
        state_shown(a) is Some,
        state_shown(a) == state_shown(b),
{
}

} // verus!
