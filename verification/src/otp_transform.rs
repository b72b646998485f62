//! The transform that encrypts with a one-time pad.
use crate::error::TransformError;
use crate::pad_rng::PadRng;
use crate::shown::{debug_finish, debug_struct, formatter_written, showed, Shown};
use crate::transform::PacketDataTransform;
use std::fmt::{Debug, Formatter};
use vstd::prelude::*;

verus! {

/// How long the handshake message is.
pub const OTP_HANDSHAKE_LEN: usize = 100000;

/// Where a one-time pad transform stands.
#[derive(Debug, Clone, Copy, PartialEq, Eq, Structural)]
pub enum OtpStage {
    /// A handshake step failed.
    Invalid,
    /// This side sends the handshake message next.
    HandshakingSend,
    /// This side waits for the handshake message.
    HandshakingWait,
    /// Data can be transformed.
    Transport,
}

/// A one-time pad transform uses a seedable generator as a one-time pad to
/// encrypt bytes. Optionally, it can have a large handshake.
pub struct OtpPacketDataTransform<T: PadRng> {
    rng: T,
    stage: OtpStage,
    handshake_bytes: Option<Vec<u8>>,
}

impl<T: PadRng> Debug for OtpPacketDataTransform<T> {
    /// Shows no more than the name.
    fn fmt(&self, f: &mut Formatter<'_>) -> (r: std::fmt::Result)
        ensures
            showed(
                formatter_written(*old(f)),
                formatter_written(*final(f)),
                Shown { name: "OtpPacketDataTransform"@, fields: seq![] },
                r,
            ),
    {
        debug_finish(debug_struct(f, "OtpPacketDataTransform"))
    }
}

/// What a one-time pad transform holds.
#[verifier::ext_equal]
pub struct OtpView<T> {
    /// The generator.
    pub rng: T,
    /// The stage of the handshake.
    pub stage: OtpStage,
    /// The handshake message, while it waits to be fetched.
    pub handshake_bytes: Option<Seq<u8>>,
}

impl<T: PadRng> View for OtpPacketDataTransform<T> {
    type V = OtpView<T>;

    closed spec fn view(&self) -> OtpView<T> {
        OtpView {
            rng: self.rng,
            stage: self.stage,
            handshake_bytes: match self.handshake_bytes {
                Some(bytes) => Some(bytes@),
                None => None,
            },
        }
    }
}

/// The next `n` bytes of the pad, drawn one by one.
pub open spec fn pad<T: PadRng>(rng: T, n: nat) -> Seq<u8>
    decreases n,
{
    if n == 0 {
        seq![]
    } else {
        pad(rng, (n - 1) as nat).push(after_pad(rng, (n - 1) as nat).byte())
    }
}

/// The generator once `n` bytes have been drawn one by one.
pub open spec fn after_pad<T: PadRng>(rng: T, n: nat) -> T
    decreases n,
{
    if n == 0 {
        rng
    } else {
        after_pad(rng, (n - 1) as nat).after_byte()
    }
}

/// The bytes of `data`, each combined with one byte of the pad.
pub open spec fn padded<T: PadRng>(data: Seq<u8>, rng: T) -> Seq<u8> {
    Seq::new(data.len(), |i: int| data[i] ^ pad(rng, data.len())[i])
}

impl<T: PadRng> OtpPacketDataTransform<T> {
    /// A transform without handshake.
    pub fn new(seed: u64) -> (t: Self)
        ensures
            t@ == (OtpView {
                rng: T::seeded(seed),
                stage: OtpStage::Transport,
                handshake_bytes: None,
            }),
    {
        Self { rng: T::from_u64_seed(seed), stage: OtpStage::Transport, handshake_bytes: None }
    }

    /// The side that sends the handshake message.
    pub fn client(seed: u64) -> (t: Self)
        ensures
            t@ == (OtpView {
                rng: T::seeded(seed),
                stage: OtpStage::HandshakingSend,
                handshake_bytes: None,
            }),
    {
        Self {
            rng: T::from_u64_seed(seed),
            stage: OtpStage::HandshakingSend,
            handshake_bytes: None,
        }
    }

    /// The side that waits for the handshake message.
    pub fn server(seed: u64) -> (t: Self)
        ensures
            t@ == (OtpView {
                rng: T::seeded(seed),
                stage: OtpStage::HandshakingWait,
                handshake_bytes: None,
            }),
    {
        Self {
            rng: T::from_u64_seed(seed),
            stage: OtpStage::HandshakingWait,
            handshake_bytes: None,
        }
    }

    /// Draws as many bytes as there are in the data, and combines the two.
    fn apply(&mut self, data: &[u8]) -> (out: Vec<u8>)
        ensures
            out@ == padded(data@, old(self)@.rng),
            final(self)@ == (OtpView { rng: after_pad(old(self)@.rng, data@.len()), ..old(self)@ }),
    {
        let mut drawn: Vec<u8> = Vec::new();
        let ghost start = self@.rng;
        while drawn.len() < data.len()
            invariant
                drawn@.len() <= data@.len(),
                start == old(self)@.rng,
                self@ == (OtpView { rng: after_pad(start, drawn@.len()), ..old(self)@ }),
                drawn@ == pad(start, drawn@.len()),
            decreases data@.len() - drawn@.len(),
        {
            let b: u8 = self.rng.draw();
            drawn.push(b);
        }
        let out = combine(data, drawn.as_slice());
        assert(out@ =~= padded(data@, start));
        out
    }
}

/// The bytes of the data, each combined with the byte of the pad in its place.
pub fn combine(data: &[u8], drawn: &[u8]) -> (out: Vec<u8>)
    requires
        drawn@.len() == data@.len(),
    ensures
        out@ == Seq::new(data@.len(), |i: int| data@[i] ^ drawn@[i]),
{
    let mut out: Vec<u8> = Vec::new();
    let mut i: usize = 0;
    while i < data.len()
        invariant
            i <= data@.len(),
            drawn@.len() == data@.len(),
            out@.len() == i,
            forall|j: int| 0 <= j < i ==> out@[j] == data@[j] ^ drawn@[j],
        decreases data@.len() - i,
    {
        out.push(data[i] ^ drawn[i]);
        i = i + 1;
    }
    assert(out@ =~= Seq::new(data@.len(), |i: int| data@[i] ^ drawn@[i]));
    out
}

/// Compares a handshake message with what the pad yields.
pub fn compare_handshake(msg: &[u8], drawn: &[u8]) -> (r: Result<(), TransformError>)
    ensures
        msg@ == drawn@ ==> r is Ok,
        msg@ != drawn@ ==> r == Err::<(), TransformError>(TransformError::PadBytes),
{
    if same_bytes(drawn, msg) {
        Ok(())
    } else {
        Err(TransformError::PadBytes)
    }
}

/// Are the two slices the same bytes?
fn same_bytes(a: &[u8], b: &[u8]) -> (same: bool)
    ensures
        same == (a@ == b@),
{
    if a.len() != b.len() {
        return false;
    }
    let mut i: usize = 0;
    while i < a.len()
        invariant
            i <= a@.len(),
            a@.len() == b@.len(),
            forall|j: int| 0 <= j < i ==> a@[j] == b@[j],
        decreases a@.len() - i,
    {
        if a[i] != b[i] {
            return false;
        }
        i = i + 1;
    }
    assert(a@ =~= b@);
    true
}

impl<T: PadRng> PacketDataTransform for OtpPacketDataTransform<T> {
    open spec fn in_handshake(&self) -> bool {
        self@.stage is HandshakingSend || self@.stage is HandshakingWait
    }

    open spec fn opens_handshake(&self) -> bool {
        self@.stage is HandshakingSend
    }

    open spec fn can_step(&self) -> bool {
        !(self@.stage is Invalid)
    }

    open spec fn intact(&self) -> bool {
        true
    }

    open spec fn payload_limit(&self) -> Option<usize> {
        None
    }

    /// The sending side draws its message from the pad. The waiting side compares
    /// the message with its own pad. Any failure leaves the stage invalid.
    open spec fn steps(&self, msg: Seq<u8>, post: &Self, r: Result<(), TransformError>) -> bool {
        let len = OTP_HANDSHAKE_LEN as nat;
        let drawn = self@.rng.bytes(len);
        let after = self@.rng.after_bytes(len);
        match self@.stage {
            OtpStage::Invalid => false,
            OtpStage::HandshakingSend => {
                &&& r is Ok
                &&& post@ == OtpView {
                    rng: after,
                    stage: OtpStage::Transport,
                    handshake_bytes: Some(drawn),
                }
            },
            OtpStage::HandshakingWait => if msg.len() == 0 {
                &&& r is Ok
                &&& post@ == self@
            } else if msg.len() != len {
                &&& r == Err::<(), TransformError>(TransformError::PadLength)
                &&& post@ == OtpView { stage: OtpStage::Invalid, ..self@ }
            } else if msg != drawn {
                &&& r == Err::<(), TransformError>(TransformError::PadBytes)
                &&& post@ == OtpView { rng: after, stage: OtpStage::Invalid, ..self@ }
            } else {
                &&& r is Ok
                &&& post@ == OtpView { rng: after, stage: OtpStage::Transport, ..self@ }
            },
            OtpStage::Transport => {
                &&& r == Err::<(), TransformError>(TransformError::HandshakeOver)
                &&& post@ == OtpView { stage: OtpStage::Invalid, ..self@ }
            },
        }
    }

    open spec fn yields(&self, post: &Self, r: Result<Option<Seq<u8>>, TransformError>) -> bool {
        &&& r == Ok::<Option<Seq<u8>>, TransformError>(self@.handshake_bytes)
        &&& post@ == OtpView { handshake_bytes: None, ..self@ }
    }

    open spec fn reads(
        &self,
        msg: Seq<u8>,
        post: &Self,
        r: Result<Seq<u8>, TransformError>,
    ) -> bool {
        &&& r == Ok::<Seq<u8>, TransformError>(padded(msg, self@.rng))
        &&& post@ == OtpView { rng: after_pad(self@.rng, msg.len()), ..self@ }
    }

    open spec fn writes(
        &self,
        payload: Seq<u8>,
        post: &Self,
        r: Result<Seq<u8>, TransformError>,
    ) -> bool {
        &&& r == Ok::<Seq<u8>, TransformError>(padded(payload, self@.rng))
        &&& post@ == OtpView { rng: after_pad(self@.rng, payload.len()), ..self@ }
    }

    fn handshaking(&self) -> (b: bool) {
        matches!(self.stage, OtpStage::HandshakingSend | OtpStage::HandshakingWait)
    }

    fn need_to_start_handshake(&mut self) -> (b: bool) {
        matches!(self.stage, OtpStage::HandshakingSend)
    }

    fn poisoned(&self) -> (b: bool) {
        false
    }

    fn max_payload_bytes(&self) -> (m: Option<usize>) {
        None
    }

    fn handshake_step(&mut self, msg: &[u8]) -> (r: Result<(), TransformError>) {
        if matches!(self.stage, OtpStage::HandshakingWait) && msg.len() == 0 {
            // this side doesn't kick off the handshake
            return Ok(());
        }
        let stage = self.stage;
        self.stage = OtpStage::Invalid;
        match stage {
            OtpStage::Invalid => Ok(()),
            OtpStage::HandshakingSend => {
                let mut buf: Vec<u8> = vec![0u8; OTP_HANDSHAKE_LEN];
                self.rng.fill_buffer(&mut buf);
                self.handshake_bytes = Some(buf);
                self.stage = OtpStage::Transport;
                Ok(())
            },
            OtpStage::HandshakingWait => {
                if msg.len() != OTP_HANDSHAKE_LEN {
                    return Err(TransformError::PadLength);
                }
                let mut buf: Vec<u8> = vec![0u8; OTP_HANDSHAKE_LEN];
                self.rng.fill_buffer(&mut buf);
                if let Err(e) = compare_handshake(msg, buf.as_slice()) {
                    return Err(e);
                }
                self.stage = OtpStage::Transport;
                Ok(())
            },
            OtpStage::Transport => Err(TransformError::HandshakeOver),
        }
    }

    fn handshake_bytes(&mut self) -> (r: Result<Option<Vec<u8>>, TransformError>) {
        let bytes = self.handshake_bytes.take();
        Ok(bytes)
    }

    fn read_payload(&mut self, msg: &[u8]) -> (r: Result<Vec<u8>, TransformError>) {
        Ok(self.apply(msg))
    }

    fn write_message(&mut self, payload: &[u8]) -> (r: Result<Vec<u8>, TransformError>) {
        Ok(self.apply(payload))
    }
}

/// Applying the same pad twice gives the data back.
pub proof fn law_padding_twice<T: PadRng>(data: Seq<u8>, rng: T)
    ensures
        padded(padded(data, rng), rng) == data,
{
    let once = padded(data, rng);
    assert forall|i: int| 0 <= i < data.len() implies padded(once, rng)[i] == data[i] by {
        let a = data[i];
        let b = pad(rng, data.len())[i];
        assert((a ^ b) ^ b == a) by (bit_vector);
    }
    assert(padded(once, rng) =~= data);
}

/// The pad goes on where it was.
proof fn lemma_pad_goes_on<T: PadRng>(rng: T, m: nat, n: nat)
    ensures
        after_pad(rng, m + n) == after_pad(after_pad(rng, m), n),
        pad(rng, m + n) == pad(rng, m) + pad(after_pad(rng, m), n),
        pad(rng, m).len() == m,
        pad(after_pad(rng, m), n).len() == n,
    decreases n, m,
{
    if n == 0 {
        if m > 0 {
            lemma_pad_goes_on(rng, (m - 1) as nat, 0);
        }
        assert(pad(rng, m) + pad(after_pad(rng, m), 0) =~= pad(rng, m));
    } else {
        lemma_pad_goes_on(rng, m, (n - 1) as nat);
        assert(pad(rng, m + n) =~= pad(rng, m) + pad(after_pad(rng, m), n));
    }
}

/// Regrouping the bytes does not change what is read: two messages give together what
/// they give as one, and the transform is the same afterwards. The same holds of
/// what is written.
pub proof fn law_otp_regrouping<T: PadRng>(
    t: OtpPacketDataTransform<T>,
    first: Seq<u8>,
    t_first: OtpPacketDataTransform<T>,
    r_first: Result<Seq<u8>, TransformError>,
    second: Seq<u8>,
    t_second: OtpPacketDataTransform<T>,
    r_second: Result<Seq<u8>, TransformError>,
    t_whole: OtpPacketDataTransform<T>,
    r_whole: Result<Seq<u8>, TransformError>,
)
    requires
        (t.reads(first, &t_first, r_first) && t_first.reads(second, &t_second, r_second)
            && t.reads(first + second, &t_whole, r_whole)) || (t.writes(first, &t_first, r_first)
            && t_first.writes(second, &t_second, r_second) && t.writes(
            first + second,
            &t_whole,
            r_whole,
        )),
    ensures
        r_first is Ok && r_second is Ok,
        r_whole == Ok::<Seq<u8>, TransformError>(r_first->Ok_0 + r_second->Ok_0),
        t_whole@ == t_second@,
{
    lemma_pad_goes_on(t@.rng, first.len(), second.len());
    assert((first + second).len() == first.len() + second.len());
    assert(padded(first + second, t@.rng) =~= padded(first, t@.rng) + padded(
        second,
        after_pad(t@.rng, first.len()),
    ));
}

/// What one side writes, the other side reads back as it was, if their
/// generators are in the same state; and they are in the same state afterwards.
pub proof fn law_otp_round_trip<T: PadRng>(
    writer: OtpPacketDataTransform<T>,
    writer_after: OtpPacketDataTransform<T>,
    payload: Seq<u8>,
    written: Result<Seq<u8>, TransformError>,
    reader: OtpPacketDataTransform<T>,
    reader_after: OtpPacketDataTransform<T>,
    read: Result<Seq<u8>, TransformError>,
)
    requires
        writer@.rng == reader@.rng,
        writer.writes(payload, &writer_after, written),
        written matches Ok(msg) && reader.reads(msg, &reader_after, read),
    ensures
        read == Ok::<Seq<u8>, TransformError>(payload),
        writer_after@.rng == reader_after@.rng,
{
    law_padding_twice(payload, writer@.rng);
}

/// A client and a server with generators in the same state come through the
/// handshake: the client's message is accepted, both sides are then ready for
/// data, and their generators are again in the same state.
pub proof fn law_otp_handshake<T: PadRng>(
    client: OtpPacketDataTransform<T>,
    client_stepped: OtpPacketDataTransform<T>,
    client_step: Result<(), TransformError>,
    client_after: OtpPacketDataTransform<T>,
    fetched: Result<Option<Seq<u8>>, TransformError>,
    server: OtpPacketDataTransform<T>,
    server_after: OtpPacketDataTransform<T>,
    server_step: Result<(), TransformError>,
)
    requires
        client@.stage is HandshakingSend,
        server@.stage is HandshakingWait,
        client@.rng == server@.rng,
        client.steps(seq![], &client_stepped, client_step),
        client_stepped.yields(&client_after, fetched),
        fetched matches Ok(Some(msg)) ==> server.steps(msg, &server_after, server_step),
    ensures
        client_step is Ok,
        fetched matches Ok(Some(msg)) && msg.len() == OTP_HANDSHAKE_LEN,
        server_step is Ok,
        client_after@.stage is Transport,
        server_after@.stage is Transport,
        client_after@.handshake_bytes is None,
        client_after@.rng == server_after@.rng,
{
    client@.rng.bytes_len(OTP_HANDSHAKE_LEN as nat);
}

} // verus!
