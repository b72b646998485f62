//! A packet layer for byte streams, with pluggable transforms.
//!
//! A layer sits on top of some object that can be read from and written to. What is
//! written through it is transformed, cut into packets and passed on; what arrives
//! is put together from packets, transformed back and handed out. A transform may
//! begin with a handshake, which the layer carries out before any data flows.
//!
//! The layer itself, `AsyncIoPacket`, does no input or output. It is a state machine
//! that names the next action, and takes in what came of it.
pub mod checksum_laws;
pub mod checksum_transform;
pub mod delivery;
pub mod error;
pub mod error_laws;
pub mod flow;
pub mod frame;
pub mod frame_laws;
pub mod incoming;
pub mod layers;
pub mod noise_laws;
pub mod noise_transform;
pub mod noop_transform;
pub mod otp_transform;
pub mod outgoing;
pub mod packet;
pub mod pad_laws;
pub mod pad_rng;
pub mod pieces;
pub mod read_laws;
pub mod sessions;
pub mod shown;
pub mod snow_link;
pub mod step;
pub mod transform;
pub mod transform_laws;
pub mod write_laws;

pub use checksum_transform::{fletcher32, ChecksumPacketDataTransform};
pub use error::{ErrorClass, PacketError, TransformError};
pub use frame::{continuation_packet, handshake_packet};
pub use noise_transform::{NoisePacketDataTransform, NoiseProtocolStep, NoiseState};
pub use noop_transform::NoopPacketDataTransform;
pub use otp_transform::{OtpPacketDataTransform, OtpStage};
pub use packet::AsyncIoPacket;
pub use pad_rng::PadRng;
pub use step::{
    FillEvent, FlushAction, FlushEvent, FlushStep, HandshakeEvent, Phase, ReadAction, ReadStep,
    ShutdownAction, WriteAction, WriteEvent, WriteStep,
};
pub use transform::PacketDataTransform;
