//! What can go wrong, and the words for it.
use vstd::prelude::*;
use vstd::string::StringExecFns;

verus! {

/// Why a transform refused a message, a payload or a handshake step.
#[derive(Debug)]
pub enum TransformError {
    /// The message is too short to start with a checksum.
    ChecksumMissing,
    /// The checksum of the data is not the one that the message starts with.
    ChecksumMismatch { computed: u32, received: u32 },
    /// The one-time pad handshake message has the wrong length.
    PadLength,
    /// The one-time pad handshake message is not what the pad yields.
    PadBytes,
    /// A handshake step was asked for after the handshake was over.
    HandshakeOver,
    /// Data was to be transformed before the handshake was over.
    HandshakePending,
    /// The Noise protocol implementation reported an error, in these words.
    Noise(String),
    /// Any other reason, for transforms defined elsewhere.
    Other(String),
}

/// One hexadecimal digit, in upper case.
pub open spec fn hex_digit(n: nat) -> char {
    if n < 10 {
        ('0' as nat + n) as char
    } else {
        ('A' as nat + (n - 10)) as char
    }
}

/// A number in upper-case hexadecimal, without leading zeros.
pub open spec fn hex(n: nat) -> Seq<char>
    decreases n,
{
    if n < 16 {
        seq![hex_digit(n)]
    } else {
        hex(n / 16).push(hex_digit(n % 16))
    }
}

impl TransformError {
    /// The words for this error.
    pub open spec fn text(&self) -> Seq<char> {
        match self {
            TransformError::ChecksumMissing => "no prepended checksum!"@,
            TransformError::ChecksumMismatch { computed, received } => "checksum mismatch! "@ + hex(
                *computed as nat,
            ) + " != "@ + hex(*received as nat),
            TransformError::PadLength => "otp handshake length invalid!"@,
            TransformError::PadBytes => "otp handshake bytes invalid!"@,
            TransformError::HandshakeOver => "completed handshake already!"@,
            TransformError::HandshakePending => "need to complete handshake first!"@,
            TransformError::Noise(words) => words@,
            TransformError::Other(words) => words@,
        }
    }

    /// The words for this error, as a string.
    pub fn message(&self) -> (s: String)
        ensures
            s@ == self.text(),
    {
        match self {
            TransformError::ChecksumMissing => "no prepended checksum!".to_owned(),
            TransformError::ChecksumMismatch { computed, received } => {
                let mut s = "checksum mismatch! ".to_owned();
                s.append(hex_string(*computed).as_str());
                s.append(" != ");
                s.append(hex_string(*received).as_str());
                s
            },
            TransformError::PadLength => "otp handshake length invalid!".to_owned(),
            TransformError::PadBytes => "otp handshake bytes invalid!".to_owned(),
            TransformError::HandshakeOver => "completed handshake already!".to_owned(),
            TransformError::HandshakePending => "need to complete handshake first!".to_owned(),
            TransformError::Noise(words) => words.clone(),
            TransformError::Other(words) => words.clone(),
        }
    }
}

fn hex_digit_str(d: u32) -> (s: &'static str)
    requires
        d < 16,
    ensures
        s@ == seq![hex_digit(d as nat)],
{
    proof {
        reveal_strlit("0");
        reveal_strlit("1");
        reveal_strlit("2");
        reveal_strlit("3");
        reveal_strlit("4");
        reveal_strlit("5");
        reveal_strlit("6");
        reveal_strlit("7");
        reveal_strlit("8");
        reveal_strlit("9");
        reveal_strlit("A");
        reveal_strlit("B");
        reveal_strlit("C");
        reveal_strlit("D");
        reveal_strlit("E");
        reveal_strlit("F");
    }
    let s: &'static str = match d {
        0 => "0",
        1 => "1",
        2 => "2",
        3 => "3",
        4 => "4",
        5 => "5",
        6 => "6",
        7 => "7",
        8 => "8",
        9 => "9",
        10 => "A",
        11 => "B",
        12 => "C",
        13 => "D",
        14 => "E",
        _ => "F",
    };
    assert(s@ =~= seq![hex_digit(d as nat)]);
    s
}

/// A number in upper-case hexadecimal, without leading zeros.
fn hex_string(n: u32) -> (s: String)
    ensures
        s@ == hex(n as nat),
    decreases n,
{
    if n < 16 {
        hex_digit_str(n).to_owned()
    } else {
        let mut s = hex_string(n / 16);
        s.append(hex_digit_str(n % 16));
        assert(s@ =~= hex(n as nat));
        s
    }
}

/// The two classes of errors that a packet layer reports.
#[derive(Debug, Clone, Copy, PartialEq, Eq, Structural)]
pub enum ErrorClass {
    /// What was received, or the handshake, is not in order.
    InvalidData,
    /// Anything else.
    Other,
}

/// Why a read or a write through a packet layer failed, other than because of
/// the object underneath.
#[derive(Debug)]
pub enum PacketError {
    /// The transform failed in its handshake.
    Handshake(TransformError),
    /// The transform refused a received message.
    Payload(TransformError),
    /// The transform refused a payload that was to be written.
    Message(TransformError),
    /// A packet that is no handshake packet arrived during the handshake.
    DataInHandshake,
    /// A handshake packet arrived when the handshake was over.
    HandshakeInData,
}

impl PacketError {
    /// The words for this error.
    pub open spec fn text(&self) -> Seq<char> {
        match self {
            PacketError::Handshake(e) => e.text(),
            PacketError::Payload(e) => e.text(),
            PacketError::Message(e) => e.text(),
            PacketError::DataInHandshake =>
                "During handshaking, not all packets were handshake packets!"@,
            PacketError::HandshakeInData => "Not handshaking but saw handshake packets!"@,
        }
    }

    /// The words for this error, as a string.
    pub fn message(&self) -> (s: String)
        ensures
            s@ == self.text(),
    {
        match self {
            PacketError::Handshake(e) => e.message(),
            PacketError::Payload(e) => e.message(),
            PacketError::Message(e) => e.message(),
            PacketError::DataInHandshake =>
                "During handshaking, not all packets were handshake packets!".to_owned(),
            PacketError::HandshakeInData => "Not handshaking but saw handshake packets!".to_owned(),
        }
    }

    /// Only a refused write is not a matter of invalid data.
    pub fn class(&self) -> (c: ErrorClass)
        ensures
            c == (if *self is Message {
                ErrorClass::Other
            } else {
                ErrorClass::InvalidData
            }),
    {
        match self {
            PacketError::Message(_) => ErrorClass::Other,
            _ => ErrorClass::InvalidData,
        }
    }
}

} // verus!
