//! What holds of transforms as such, and of the one that leaves everything as it is.
use crate::checksum_transform::ChecksumPacketDataTransform;
use crate::error::TransformError;
use crate::noop_transform::NoopPacketDataTransform;
use crate::transform::{option_view, vec_view, PacketDataTransform};
use vstd::prelude::*;

verus! {

/// Without transformation every message is its payload.
pub proof fn law_noop_copies(
    t: &mut NoopPacketDataTransform,
    data: &[u8],
    r: Result<Vec<u8>, TransformError>,
)
    requires
        call_ensures(
            <NoopPacketDataTransform as PacketDataTransform>::write_message,
            (t, data),
            r,
        ) || call_ensures(
            <NoopPacketDataTransform as PacketDataTransform>::read_payload,
            (t, data),
            r,
        ),
    ensures
        r matches Ok(out) && out@ == data@,
{
}

/// Without transformation there is no handshake, no limit and no way to be beyond use.
pub proof fn law_noop_has_no_handshake(
    t: &mut NoopPacketDataTransform,
    msg: &[u8],
    handshaking: bool,
    opens: bool,
    poisoned: bool,
    limit: Option<usize>,
)
    requires
        call_ensures(
            <NoopPacketDataTransform as PacketDataTransform>::handshaking,
            (&*old(t),),
            handshaking,
        ),
        call_ensures(
            <NoopPacketDataTransform as PacketDataTransform>::need_to_start_handshake,
            (t,),
            opens,
        ),
        call_ensures(
            <NoopPacketDataTransform as PacketDataTransform>::poisoned,
            (&*old(t),),
            poisoned,
        ),
        call_ensures(
            <NoopPacketDataTransform as PacketDataTransform>::max_payload_bytes,
            (&*old(t),),
            limit,
        ),
    ensures
        !handshaking && !opens && !poisoned,
        limit is None,
{
}

/// A handshake step does nothing there, and there are no handshake bytes.
pub proof fn law_noop_has_no_handshake_steps(
    t: &mut NoopPacketDataTransform,
    msg: &[u8],
    step: Result<(), TransformError>,
    bytes: Result<Option<Vec<u8>>, TransformError>,
)
    requires
        call_ensures(
            <NoopPacketDataTransform as PacketDataTransform>::handshake_step,
            (t, msg),
            step,
        ),
        call_ensures(
            <NoopPacketDataTransform as PacketDataTransform>::handshake_bytes,
            (t,),
            bytes,
        ),
    ensures
        step is Ok,
        bytes matches Ok(None),
{
}

/// With checksums there is no handshake, no limit and no way to be beyond use.
pub proof fn law_checksum_has_no_handshake(
    t: &mut ChecksumPacketDataTransform,
    msg: &[u8],
    handshaking: bool,
    opens: bool,
    poisoned: bool,
    limit: Option<usize>,
)
    requires
        call_ensures(
            <ChecksumPacketDataTransform as PacketDataTransform>::handshaking,
            (&*old(t),),
            handshaking,
        ),
        call_ensures(
            <ChecksumPacketDataTransform as PacketDataTransform>::need_to_start_handshake,
            (t,),
            opens,
        ),
        call_ensures(
            <ChecksumPacketDataTransform as PacketDataTransform>::poisoned,
            (&*old(t),),
            poisoned,
        ),
        call_ensures(
            <ChecksumPacketDataTransform as PacketDataTransform>::max_payload_bytes,
            (&*old(t),),
            limit,
        ),
    ensures
        !handshaking && !opens && !poisoned,
        limit is None,
{
}

/// A handshake step does nothing there, and there are no handshake bytes.
pub proof fn law_checksum_has_no_handshake_steps(
    t: &mut ChecksumPacketDataTransform,
    msg: &[u8],
    step: Result<(), TransformError>,
    bytes: Result<Option<Vec<u8>>, TransformError>,
)
    requires
        call_ensures(
            <ChecksumPacketDataTransform as PacketDataTransform>::handshake_step,
            (t, msg),
            step,
        ),
        call_ensures(
            <ChecksumPacketDataTransform as PacketDataTransform>::handshake_bytes,
            (t,),
            bytes,
        ),
    ensures
        step is Ok,
        bytes matches Ok(None),
{
}

/// The answers and results of a transform are what its spec functions say: whether it
/// is in its handshake, has to open it, is beyond use, or has a limit, and what its
/// other methods may do.
pub proof fn law_a_transform_is_what_it_says<T: PacketDataTransform>(
    b: &mut T,
    data: &[u8],
    step: Result<(), TransformError>,
    bytes: Result<Option<Vec<u8>>, TransformError>,
    out: Result<Vec<u8>, TransformError>,
    asked: bool,
    limit: Option<usize>,
)
    ensures
        call_ensures(T::handshaking, (&*old(b),), asked) ==> asked == old(b).in_handshake()
            && (asked ==> old(b).can_step()),
        call_ensures(T::need_to_start_handshake, (b,), asked) ==> asked == old(b).opens_handshake()
            && *final(b) == *old(b),
        call_ensures(T::poisoned, (&*old(b),), asked) ==> asked == !old(b).intact(),
        call_ensures(T::max_payload_bytes, (&*old(b),), limit) ==> limit == old(b).payload_limit()
            && limit != Some(0usize),
        call_ensures(T::handshake_step, (b, data), step) ==> old(b).steps(data@, final(b), step),
        call_ensures(T::handshake_bytes, (b,), bytes) ==> match bytes {
            Ok(Some(got)) => old(b).yields(final(b), Ok(Some(got@))),
            Ok(None) => old(b).yields(final(b), Ok(None)),
            Err(e) => old(b).yields(final(b), Err(e)),
        },
        call_ensures(T::read_payload, (b, data), out) ==> match out {
            Ok(got) => old(b).reads(data@, final(b), Ok(got@)),
            Err(e) => old(b).reads(data@, final(b), Err(e)),
        },
        call_ensures(T::write_message, (b, data), out) ==> match out {
            Ok(got) => old(b).writes(data@, final(b), Ok(got@)),
            Err(e) => old(b).writes(data@, final(b), Err(e)),
        },
{
}

/// What is in a box does what it does without the box.
pub proof fn law_a_box_changes_nothing<T: PacketDataTransform>(
    b: &mut Box<T>,
    data: &[u8],
    step: Result<(), TransformError>,
    bytes: Result<Option<Vec<u8>>, TransformError>,
    out: Result<Vec<u8>, TransformError>,
    asked: bool,
    limit: Option<usize>,
)
    ensures
        call_ensures(<Box<T> as PacketDataTransform>::handshaking, (&*old(b),), asked) ==> asked
            == (**old(b)).in_handshake(),
        call_ensures(<Box<T> as PacketDataTransform>::need_to_start_handshake, (b,), asked)
            ==> asked == (**old(b)).opens_handshake() && **final(b) == **old(b),
        call_ensures(<Box<T> as PacketDataTransform>::poisoned, (&*old(b),), asked) ==> asked == !(
        **old(b)).intact(),
        call_ensures(<Box<T> as PacketDataTransform>::max_payload_bytes, (&*old(b),), limit)
            ==> limit == (**old(b)).payload_limit(),
        call_ensures(<Box<T> as PacketDataTransform>::handshake_step, (b, data), step) ==> (
        **old(b)).steps(data@, &**final(b), step),
        call_ensures(<Box<T> as PacketDataTransform>::handshake_bytes, (b,), bytes) ==> (
        **old(b)).yields(&**final(b), option_view(bytes)),
        call_ensures(<Box<T> as PacketDataTransform>::read_payload, (b, data), out) ==> (
        **old(b)).reads(data@, &**final(b), vec_view(out)),
        call_ensures(<Box<T> as PacketDataTransform>::write_message, (b, data), out) ==> (
        **old(b)).writes(data@, &**final(b), vec_view(out)),
{
}

} // verus!
