//! What a packet layer asks of a transform.
use crate::error::TransformError;
use std::fmt::Debug;
use vstd::prelude::*;

verus! {

/// What a transform says of itself.
pub struct Standing {
    pub in_handshake: bool,
    pub opens_handshake: bool,
    pub intact: bool,
    pub payload_limit: Option<usize>,
}

/// The standing of a transform of which nothing is known: some function of its value.
pub open spec fn unspecified<T>(transform: T) -> Standing {
    arbitrary::<spec_fn(T) -> Standing>()(transform)
}

/// A transform that a packet layer applies to what it reads and writes.
///
/// What each method may do is said by the spec functions: for a method that can
/// change the transform, the relation between the transform before, the
/// arguments, the transform after and the result. A transform need not be
/// deterministic, so more than one outcome may satisfy the relation. Where an
/// implementation says nothing, nothing is known of what its methods return.
pub trait PacketDataTransform: Sized + Debug + Send + Sync {
    /// The handshake is not over yet.
    open spec fn in_handshake(&self) -> bool {
        unspecified(*self).in_handshake
    }

    /// This side has to open the handshake.
    open spec fn opens_handshake(&self) -> bool {
        unspecified(*self).opens_handshake
    }

    /// A handshake step can be taken. Holds at least during the handshake.
    open spec fn can_step(&self) -> bool {
        self.in_handshake()
    }

    /// No failure has left the transform unable to hand out handshake bytes or
    /// to transform data.
    open spec fn intact(&self) -> bool {
        unspecified(*self).intact
    }

    /// The largest payload that can be written at once, if there is a limit.
    open spec fn payload_limit(&self) -> Option<usize> {
        unspecified(*self).payload_limit
    }

    /// `handshake_step(msg)` may turn `self` into `post` and return `r`.
    open spec fn steps(&self, msg: Seq<u8>, post: &Self, r: Result<(), TransformError>) -> bool {
        true
    }

    /// `handshake_bytes()` may turn `self` into `post` and return `r`.
    open spec fn yields(&self, post: &Self, r: Result<Option<Seq<u8>>, TransformError>) -> bool {
        true
    }

    /// `read_payload(msg)` may turn `self` into `post` and return `r`.
    open spec fn reads(
        &self,
        msg: Seq<u8>,
        post: &Self,
        r: Result<Seq<u8>, TransformError>,
    ) -> bool {
        true
    }

    /// `write_message(payload)` may turn `self` into `post` and return `r`.
    open spec fn writes(
        &self,
        payload: Seq<u8>,
        post: &Self,
        r: Result<Seq<u8>, TransformError>,
    ) -> bool {
        true
    }

    /// If this implementation needs to perform some sort of handshake, returns
    /// true while it is handshaking.
    fn handshaking(&self) -> (b: bool)
        ensures
            b == self.in_handshake(),
            b ==> self.can_step(),
    ;

    /// Does this implementation need to start handshaking?
    fn need_to_start_handshake(&mut self) -> (b: bool)
        ensures
            *final(self) == *old(self),
            b == old(self).opens_handshake(),
    ;

    /// Is the transform beyond use because a handshake step failed?
    fn poisoned(&self) -> (b: bool)
        ensures
            b == !self.intact(),
    ;

    /// Is there a largest payload that `write_message` takes?
    fn max_payload_bytes(&self) -> (m: Option<usize>)
        ensures
            m == self.payload_limit(),
            m != Some(0usize),
    ;

    /// Drives the handshake by passing in any framed handshake bytes received.
    fn handshake_step(&mut self, msg: &[u8]) -> (r: Result<(), TransformError>)
        requires
            old(self).can_step(),
        ensures
            old(self).steps(msg@, final(self), r),
    ;

    /// Checks if there are additional handshake bytes to send, and consumes them
    /// if so.
    fn handshake_bytes(&mut self) -> (r: Result<Option<Vec<u8>>, TransformError>)
        requires
            old(self).intact(),
        ensures
            old(self).yields(final(self), option_view(r)),
    ;

    /// Reads received packeted data, optionally applies a transform, and returns
    /// a payload buffer.
    fn read_payload(&mut self, msg: &[u8]) -> (r: Result<Vec<u8>, TransformError>)
        requires
            old(self).intact(),
        ensures
            old(self).reads(msg@, final(self), vec_view(r)),
    ;

    /// Reads a payload, optionally applies a transform, and returns a message that
    /// will eventually be sent as packet data.
    fn write_message(&mut self, payload: &[u8]) -> (r: Result<Vec<u8>, TransformError>)
        requires
            old(self).intact(),
        ensures
            old(self).writes(payload@, final(self), vec_view(r)),
    ;
}

/// A result of a transform with its bytes as a sequence.
pub open spec fn vec_view(r: Result<Vec<u8>, TransformError>) -> Result<Seq<u8>, TransformError> {
    match r {
        Ok(bytes) => Ok(bytes@),
        Err(e) => Err(e),
    }
}

/// A result of a transform with its bytes, if any, as a sequence.
pub open spec fn option_view(r: Result<Option<Vec<u8>>, TransformError>) -> Result<
    Option<Seq<u8>>,
    TransformError,
> {
    match r {
        Ok(Some(bytes)) => Ok(Some(bytes@)),
        Ok(None) => Ok(None),
        Err(e) => Err(e),
    }
}

/// A boxed transform is the transform in the box.
impl<T: PacketDataTransform> PacketDataTransform for Box<T> {
    open spec fn in_handshake(&self) -> bool {
        (**self).in_handshake()
    }

    open spec fn opens_handshake(&self) -> bool {
        (**self).opens_handshake()
    }

    open spec fn can_step(&self) -> bool {
        (**self).can_step()
    }

    open spec fn intact(&self) -> bool {
        (**self).intact()
    }

    open spec fn payload_limit(&self) -> Option<usize> {
        (**self).payload_limit()
    }

    open spec fn steps(&self, msg: Seq<u8>, post: &Self, r: Result<(), TransformError>) -> bool {
        (**self).steps(msg, &**post, r)
    }

    open spec fn yields(&self, post: &Self, r: Result<Option<Seq<u8>>, TransformError>) -> bool {
        (**self).yields(&**post, r)
    }

    open spec fn reads(
        &self,
        msg: Seq<u8>,
        post: &Self,
        r: Result<Seq<u8>, TransformError>,
    ) -> bool {
        (**self).reads(msg, &**post, r)
    }

    open spec fn writes(
        &self,
        payload: Seq<u8>,
        post: &Self,
        r: Result<Seq<u8>, TransformError>,
    ) -> bool {
        (**self).writes(payload, &**post, r)
    }

    fn handshaking(&self) -> (b: bool) {
        (**self).handshaking()
    }

    fn need_to_start_handshake(&mut self) -> (b: bool) {
        (**self).need_to_start_handshake()
    }

    fn poisoned(&self) -> (b: bool) {
        (**self).poisoned()
    }

    fn max_payload_bytes(&self) -> (m: Option<usize>) {
        (**self).max_payload_bytes()
    }

    fn handshake_step(&mut self, msg: &[u8]) -> (r: Result<(), TransformError>) {
        (**self).handshake_step(msg)
    }

    fn handshake_bytes(&mut self) -> (r: Result<Option<Vec<u8>>, TransformError>) {
        (**self).handshake_bytes()
    }

    fn read_payload(&mut self, msg: &[u8]) -> (r: Result<Vec<u8>, TransformError>) {
        (**self).read_payload(msg)
    }

    fn write_message(&mut self, payload: &[u8]) -> (r: Result<Vec<u8>, TransformError>) {
        (**self).write_message(payload)
    }
}

} // verus!
