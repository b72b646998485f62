//! The words of errors.
use crate::error::{hex, ErrorClass, PacketError, TransformError};
use vstd::prelude::*;

verus! {

/// A number in hexadecimal is that of its sixteenth part and one more digit; a digit is
/// one of `0` to `9` and `A` to `F`.
pub proof fn law_hexadecimal(n: nat, d: nat)
    requires
        d < 16,
    ensures
        n > 0 ==> hex(16 * n + d) == hex(n) + hex(d),
        hex(d).len() == 1,
        d < 10 ==> hex(d)[0] as nat == '0' as nat + d,
        d >= 10 ==> hex(d)[0] as nat == 'A' as nat + (d - 10),
{
    if n > 0 {
        assert((16 * n + d) / 16 == n);
        assert((16 * n + d) % 16 == d);
        assert(hex(16 * n + d) =~= hex(n) + hex(d));
    }
}

/// The words for each reason of a transform.
pub proof fn law_words_of_a_transform(e: &TransformError, s: String)
    requires
        call_ensures(TransformError::message, (e,), s),
    ensures
        *e is ChecksumMissing ==> s@ == "no prepended checksum!"@,
        *e is PadLength ==> s@ == "otp handshake length invalid!"@,
        *e is PadBytes ==> s@ == "otp handshake bytes invalid!"@,
        *e is HandshakeOver ==> s@ == "completed handshake already!"@,
        *e is HandshakePending ==> s@ == "need to complete handshake first!"@,
        *e matches TransformError::Noise(words) ==> s@ == words@,
        *e matches TransformError::Other(words) ==> s@ == words@,
        *e matches TransformError::ChecksumMismatch { computed, received } ==> s@
            == "checksum mismatch! "@ + hex(computed as nat) + " != "@ + hex(received as nat),
{
}

/// A layer gives the words of its transform, and has words of its own for packets that
/// are out of place. Only a refused write is not a matter of invalid data.
pub proof fn law_words_of_a_layer(
    e: &PacketError,
    s: String,
    reason: &TransformError,
    reason_words: String,
    class: ErrorClass,
)
    requires
        call_ensures(PacketError::message, (e,), s),
        call_ensures(PacketError::class, (e,), class),
        call_ensures(TransformError::message, (reason,), reason_words),
    ensures
        *e == PacketError::Handshake(*reason) || *e == PacketError::Payload(*reason) || *e
            == PacketError::Message(*reason) ==> s@ == reason_words@,
        *e is DataInHandshake ==> s@
            == "During handshaking, not all packets were handshake packets!"@,
        *e is HandshakeInData ==> s@ == "Not handshaking but saw handshake packets!"@,
        class is Other <==> *e is Message,
        class is InvalidData <==> !(*e is Message),
{
}

} // verus!
