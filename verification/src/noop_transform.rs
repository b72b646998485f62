//! The transform that leaves everything as it is.
use crate::error::TransformError;
use crate::transform::PacketDataTransform;
use vstd::prelude::*;
use vstd::slice::slice_to_vec;

verus! {

/// A no-op transform does nothing except copy bytes.
#[derive(Debug)]
pub struct NoopPacketDataTransform {}

impl PacketDataTransform for NoopPacketDataTransform {
    open spec fn in_handshake(&self) -> bool {
        false
    }

    open spec fn opens_handshake(&self) -> bool {
        false
    }

    open spec fn can_step(&self) -> bool {
        true
    }

    open spec fn intact(&self) -> bool {
        true
    }

    open spec fn payload_limit(&self) -> Option<usize> {
        None
    }

    open spec fn steps(&self, msg: Seq<u8>, post: &Self, r: Result<(), TransformError>) -> bool {
        r is Ok && *post == *self
    }

    open spec fn yields(&self, post: &Self, r: Result<Option<Seq<u8>>, TransformError>) -> bool {
        r == Ok::<Option<Seq<u8>>, TransformError>(None) && *post == *self
    }

    open spec fn reads(
        &self,
        msg: Seq<u8>,
        post: &Self,
        r: Result<Seq<u8>, TransformError>,
    ) -> bool {
        r == Ok::<Seq<u8>, TransformError>(msg) && *post == *self
    }

    open spec fn writes(
        &self,
        payload: Seq<u8>,
        post: &Self,
        r: Result<Seq<u8>, TransformError>,
    ) -> bool {
        r == Ok::<Seq<u8>, TransformError>(payload) && *post == *self
    }

    fn handshaking(&self) -> (b: bool) {
        false
    }

    fn need_to_start_handshake(&mut self) -> (b: bool) {
        false
    }

    fn poisoned(&self) -> (b: bool) {
        false
    }

    fn max_payload_bytes(&self) -> (m: Option<usize>) {
        None
    }

    fn handshake_step(&mut self, _msg: &[u8]) -> (r: Result<(), TransformError>) {
        Ok(())
    }

    fn handshake_bytes(&mut self) -> (r: Result<Option<Vec<u8>>, TransformError>) {
        Ok(None)
    }

    fn read_payload(&mut self, msg: &[u8]) -> (r: Result<Vec<u8>, TransformError>) {
        Ok(slice_to_vec(msg))
    }

    fn write_message(&mut self, payload: &[u8]) -> (r: Result<Vec<u8>, TransformError>) {
        Ok(slice_to_vec(payload))
    }
}

/// What one no-op transform writes, any other reads back as it was.
pub proof fn law_noop_round_trip(
    writer: NoopPacketDataTransform,
    writer_after: NoopPacketDataTransform,
    payload: Seq<u8>,
    written: Result<Seq<u8>, TransformError>,
    reader: NoopPacketDataTransform,
    reader_after: NoopPacketDataTransform,
    read: Result<Seq<u8>, TransformError>,
)
    requires
        writer.writes(payload, &writer_after, written),
        written matches Ok(msg) && reader.reads(msg, &reader_after, read),
    ensures
        read == Ok::<Seq<u8>, TransformError>(payload),
{
}

} // verus!
