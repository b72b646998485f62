//! The steps that reading, writing and flushing are made of, and what comes of the
//! actions that they name.
use crate::error::PacketError;
use vstd::prelude::*;

verus! {

/// For which purpose packets are written in the course of a read.
#[derive(Debug, Clone, Copy, PartialEq, Eq, Structural)]
pub enum Phase {
    /// To open the handshake.
    KickOff,
    /// To get rid of handshake packets that are left over.
    Drain,
    /// To answer a handshake message.
    Reply,
}

/// What a read asks for next.
#[derive(Debug)]
pub enum ReadAction {
    /// Try to write the bytes, then call `read_after_write`.
    Write(Phase, Vec<u8>),
    /// Try to read at most `MAX_FRAME_LEN` bytes, then call `read_after_fill`.
    Fill,
    /// The read has to wait.
    Wait,
    /// The read is done.
    Ready,
    /// The read failed.
    Fail(PacketError),
    /// The read failed with the error that the last action came to.
    IoError,
    /// The transform is beyond use.
    Poisoned,
}

/// A step of a read.
#[derive(Debug)]
pub struct ReadStep {
    /// Bytes that the reader gets.
    pub output: Vec<u8>,
    /// The task is to be woken up again.
    pub wake: bool,
    /// What comes next.
    pub action: ReadAction,
}

/// A `ReadAction` with its bytes as a sequence.
pub enum ReadActionView {
    Write(Phase, Seq<u8>),
    Fill,
    Wait,
    Ready,
    Fail(PacketError),
    IoError,
    Poisoned,
}

impl View for ReadAction {
    type V = ReadActionView;

    open spec fn view(&self) -> ReadActionView {
        match *self {
            ReadAction::Write(phase, bytes) => ReadActionView::Write(phase, bytes@),
            ReadAction::Fill => ReadActionView::Fill,
            ReadAction::Wait => ReadActionView::Wait,
            ReadAction::Ready => ReadActionView::Ready,
            ReadAction::Fail(e) => ReadActionView::Fail(e),
            ReadAction::IoError => ReadActionView::IoError,
            ReadAction::Poisoned => ReadActionView::Poisoned,
        }
    }
}

/// A `ReadStep` with its bytes as sequences.
pub struct ReadStepView {
    pub output: Seq<u8>,
    pub wake: bool,
    pub action: ReadActionView,
}

impl View for ReadStep {
    type V = ReadStepView;

    open spec fn view(&self) -> ReadStepView {
        ReadStepView { output: self.output@, wake: self.wake, action: self.action@ }
    }
}

/// What a write asks for next.
#[derive(Debug)]
pub enum WriteAction {
    /// The handshake is going on. Read, without looking for output, then call
    /// `write_after_handshake`.
    Handshake,
    /// Try to write the bytes, then call `write_after_write`.
    Write(Vec<u8>),
    /// The write has to wait.
    Wait,
    /// The write is done, and so many bytes have been taken.
    Ready(usize),
    /// The write failed.
    Fail(PacketError),
    /// The write failed with the error that the last action came to.
    IoError,
    /// The transform is beyond use.
    Poisoned,
}

/// A step of a write.
#[derive(Debug)]
pub struct WriteStep {
    /// The task is to be woken up again.
    pub wake: bool,
    /// What comes next.
    pub action: WriteAction,
}

/// A `WriteAction` with its bytes as a sequence.
pub enum WriteActionView {
    Handshake,
    Write(Seq<u8>),
    Wait,
    Ready(usize),
    Fail(PacketError),
    IoError,
    Poisoned,
}

impl View for WriteAction {
    type V = WriteActionView;

    open spec fn view(&self) -> WriteActionView {
        match *self {
            WriteAction::Handshake => WriteActionView::Handshake,
            WriteAction::Write(bytes) => WriteActionView::Write(bytes@),
            WriteAction::Wait => WriteActionView::Wait,
            WriteAction::Ready(n) => WriteActionView::Ready(n),
            WriteAction::Fail(e) => WriteActionView::Fail(e),
            WriteAction::IoError => WriteActionView::IoError,
            WriteAction::Poisoned => WriteActionView::Poisoned,
        }
    }
}

/// What a flush asks for next.
#[derive(Debug)]
pub enum FlushAction {
    /// Try to write the bytes, then call `flush_after_write`.
    Write(Vec<u8>),
    /// Flush the object underneath, and return what comes of it.
    FlushIo,
    /// The flush has to wait.
    Wait,
    /// The flush failed with the error that the last action came to.
    IoError,
}

/// A step of a flush.
#[derive(Debug)]
pub struct FlushStep {
    /// The task is to be woken up again.
    pub wake: bool,
    /// What comes next.
    pub action: FlushAction,
}

/// What came of a read that was made to get on with the handshake.
#[derive(Debug, Clone, Copy, PartialEq, Eq, Structural)]
pub enum HandshakeEvent {
    /// It has to wait.
    Pending,
    /// It is done.
    Ready,
    /// It failed.
    Failed,
}

/// What came of writing to the object underneath.
#[derive(Debug, Clone, Copy, PartialEq, Eq, Structural)]
pub enum WriteEvent {
    /// Nothing can be written now.
    Pending,
    /// So many bytes were written.
    Done(usize),
    /// The object failed.
    Failed,
}

/// What came of reading from the object underneath.
#[derive(Debug)]
pub enum FillEvent {
    /// Nothing can be read now.
    Pending,
    /// These bytes were read.
    Filled(Vec<u8>),
    /// The object failed.
    Failed,
}

/// What a shutdown asks for next.
#[derive(Debug, Clone, Copy, PartialEq, Eq, Structural)]
pub enum ShutdownAction {
    /// Flush the object underneath, then call `shutdown_after_flush`.
    FlushIo,
    /// Shut the object underneath down, and return what comes of it.
    ShutdownIo,
    /// The shutdown has to wait.
    Wait,
    /// The shutdown failed with the error that the last action came to.
    IoError,
}

/// What came of flushing the object underneath.
#[derive(Debug, Clone, Copy, PartialEq, Eq, Structural)]
pub enum FlushEvent {
    /// It has to wait.
    Pending,
    /// It is done.
    Done,
    /// The object failed.
    Failed,
}

} // verus!
