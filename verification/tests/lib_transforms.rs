//! Two ends of a connection in memory, with one or more layers on each end.
use async_io_packet::{
    AsyncIoPacket, ChecksumPacketDataTransform, FillEvent, FlushAction, HandshakeEvent,
    NoisePacketDataTransform, NoopPacketDataTransform, OtpPacketDataTransform, PacketDataTransform,
    ReadAction, ReadStep, WriteAction, WriteEvent, WriteStep,
};
use rand::rngs::StdRng;
use rand::Rng;
use std::cell::RefCell;
use std::collections::VecDeque;
use std::rc::Rc;
use std::task::Poll;

/// What can be read from and written to.
trait Stream {
    fn poll_read(&mut self, room: usize) -> Poll<Result<Vec<u8>, String>>;
    fn poll_write(&mut self, bytes: &[u8]) -> Poll<Result<usize, String>>;
    fn poll_flush(&mut self) -> Poll<Result<(), String>>;
}

/// One end of a pipe in memory. A write takes `most` bytes at most.
struct Pipe {
    from: Rc<RefCell<VecDeque<u8>>>,
    to: Rc<RefCell<VecDeque<u8>>>,
    most: usize,
}

impl Stream for Pipe {
    fn poll_read(&mut self, room: usize) -> Poll<Result<Vec<u8>, String>> {
        let mut from = self.from.borrow_mut();
        if from.is_empty() {
            return Poll::Pending;
        }
        let n = room.min(from.len());
        Poll::Ready(Ok(from.drain(0..n).collect()))
    }

    fn poll_write(&mut self, bytes: &[u8]) -> Poll<Result<usize, String>> {
        let n = bytes.len().min(self.most);
        self.to.borrow_mut().extend(&bytes[..n]);
        Poll::Ready(Ok(n))
    }

    fn poll_flush(&mut self) -> Poll<Result<(), String>> {
        Poll::Ready(Ok(()))
    }
}

fn pipe(most: usize) -> (Pipe, Pipe) {
    let a = Rc::new(RefCell::new(VecDeque::new()));
    let b = Rc::new(RefCell::new(VecDeque::new()));
    (
        Pipe {
            from: a.clone(),
            to: b.clone(),
            most,
        },
        Pipe {
            from: b,
            to: a,
            most,
        },
    )
}

/// A packet layer on top of a stream.
struct Layer<U: PacketDataTransform> {
    io: Box<dyn Stream>,
    core: AsyncIoPacket<U>,
}

impl<U: PacketDataTransform> Layer<U> {
    fn new(io: Box<dyn Stream>, transform: U) -> Self {
        Layer {
            io,
            core: AsyncIoPacket::new(transform),
        }
    }

    fn write_to_io(&mut self, bytes: &[u8], error: &mut String) -> WriteEvent {
        match self.io.poll_write(bytes) {
            Poll::Pending => WriteEvent::Pending,
            Poll::Ready(Ok(n)) => WriteEvent::Done(n),
            Poll::Ready(Err(e)) => {
                *error = e;
                WriteEvent::Failed
            }
        }
    }
}

impl<U: PacketDataTransform> Stream for Layer<U> {
    fn poll_read(&mut self, room: usize) -> Poll<Result<Vec<u8>, String>> {
        let mut out: Vec<u8> = vec![];
        let mut error = String::new();
        let mut step: ReadStep = self.core.begin_read();
        loop {
            out.extend_from_slice(&step.output);
            step = match step.action {
                ReadAction::Write(phase, bytes) => {
                    let event = self.write_to_io(&bytes, &mut error);
                    self.core.read_after_write(phase, event)
                }
                ReadAction::Fill => {
                    let event = match self.io.poll_read(65535) {
                        Poll::Pending => FillEvent::Pending,
                        Poll::Ready(Ok(bytes)) => FillEvent::Filled(bytes),
                        Poll::Ready(Err(e)) => {
                            error = e;
                            FillEvent::Failed
                        }
                    };
                    self.core.read_after_fill(event, room)
                }
                ReadAction::Wait => {
                    assert!(out.is_empty());
                    return Poll::Pending;
                }
                ReadAction::Ready => return Poll::Ready(Ok(out)),
                ReadAction::Fail(e) => return Poll::Ready(Err(e.message())),
                ReadAction::IoError => return Poll::Ready(Err(error)),
                ReadAction::Poisoned => panic!("saw transient invalid state!"),
            }
        }
    }

    fn poll_write(&mut self, bytes: &[u8]) -> Poll<Result<usize, String>> {
        let mut error = String::new();
        let mut step: WriteStep = self.core.begin_write(bytes);
        loop {
            step = match step.action {
                WriteAction::Handshake => {
                    let event = match self.poll_read(65536) {
                        Poll::Pending => HandshakeEvent::Pending,
                        Poll::Ready(Ok(out)) => {
                            assert!(out.is_empty());
                            HandshakeEvent::Ready
                        }
                        Poll::Ready(Err(e)) => {
                            error = e;
                            HandshakeEvent::Failed
                        }
                    };
                    self.core.write_after_handshake(event)
                }
                WriteAction::Write(packets) => {
                    let event = self.write_to_io(&packets, &mut error);
                    self.core.write_after_write(event, bytes.len())
                }
                WriteAction::Wait => return Poll::Pending,
                WriteAction::Ready(n) => return Poll::Ready(Ok(n)),
                WriteAction::Fail(e) => return Poll::Ready(Err(e.message())),
                WriteAction::IoError => return Poll::Ready(Err(error)),
                WriteAction::Poisoned => panic!("saw transient invalid state!"),
            }
        }
    }

    fn poll_flush(&mut self) -> Poll<Result<(), String>> {
        let mut error = String::new();
        let mut step = self.core.begin_flush();
        loop {
            step = match step.action {
                FlushAction::Write(bytes) => {
                    let event = self.write_to_io(&bytes, &mut error);
                    self.core.flush_after_write(event)
                }
                FlushAction::FlushIo => return self.io.poll_flush(),
                FlushAction::Wait => return Poll::Pending,
                FlushAction::IoError => return Poll::Ready(Err(error)),
            }
        }
    }
}

/// Two connected ends, and what each has read that nobody has asked for yet.
struct Ends {
    ends: [Box<dyn Stream>; 2],
    read: [Vec<u8>; 2],
}

const CLIENT: usize = 0;
const SERVER: usize = 1;

impl Ends {
    /// Lets an end read, so that the other can get on.
    fn pump(&mut self, end: usize) {
        if let Poll::Ready(r) = self.ends[end].poll_read(4096) {
            self.read[end].extend(r.unwrap());
        }
    }

    fn write(&mut self, end: usize, bytes: &[u8]) -> usize {
        for _ in 0..1000 {
            if let Poll::Ready(r) = self.ends[end].poll_write(bytes) {
                return r.unwrap();
            }
            self.pump(1 - end);
        }
        panic!("no progress");
    }

    fn flush(&mut self, end: usize) {
        for _ in 0..1000 {
            if let Poll::Ready(r) = self.ends[end].poll_flush() {
                return r.unwrap();
            }
        }
        panic!("no progress");
    }

    fn read(&mut self, end: usize, room: usize) -> Vec<u8> {
        for _ in 0..1000 {
            if !self.read[end].is_empty() {
                let n = room.min(self.read[end].len());
                return self.read[end].drain(0..n).collect();
            }
            if let Poll::Ready(r) = self.ends[end].poll_read(room) {
                return r.unwrap();
            }
            self.pump(1 - end);
        }
        panic!("no progress");
    }

    fn read_exact(&mut self, end: usize, len: usize) -> Vec<u8> {
        let mut out = vec![];
        while out.len() < len {
            out.extend(self.read(end, len - out.len()));
        }
        out
    }
}

fn framework<T: PacketDataTransform + 'static>(client: T, server: T) -> Ends {
    let (a, b) = pipe(7000);
    Ends {
        ends: [
            Box::new(Layer::new(Box::new(a), client)),
            Box::new(Layer::new(Box::new(b), server)),
        ],
        read: [vec![], vec![]],
    }
}

/// Puts a layer on each of the two streams.
fn on_top<T: PacketDataTransform + 'static>(
    ends: (Box<dyn Stream>, Box<dyn Stream>),
    client: T,
    server: T,
) -> (Box<dyn Stream>, Box<dyn Stream>) {
    (
        Box::new(Layer::new(ends.0, client)),
        Box::new(Layer::new(ends.1, server)),
    )
}

fn pipes() -> (Box<dyn Stream>, Box<dyn Stream>) {
    let (a, b) = pipe(50000);
    (Box::new(a), Box::new(b))
}

fn ends(layers: (Box<dyn Stream>, Box<dyn Stream>)) -> Ends {
    Ends {
        ends: [layers.0, layers.1],
        read: [vec![], vec![]],
    }
}

fn random(len: usize) -> Vec<u8> {
    let mut buf = vec![0u8; len];
    let mut rng = rand::thread_rng();
    rng.fill(&mut buf[..]);
    buf
}

fn library_transform<T: PacketDataTransform + 'static>(client: T, server: T) {
    let mut tf = framework(client, server);

    // Send and receive a small message
    let n = tf.write(CLIENT, "test post please ignore".as_bytes());
    assert_eq!(n, "test post please ignore".len());

    let buf = tf.read(SERVER, u16::MAX as usize);
    assert_eq!(&buf[..], "test post please ignore".as_bytes());

    // Send and receive a giant message
    let _n = tf.write(SERVER, &vec![0xFFu8; u16::MAX as usize]);
    tf.flush(SERVER);

    let buf = tf.read_exact(CLIENT, u16::MAX as usize);

    assert_eq!(buf.len(), u16::MAX as usize);
    assert_eq!(buf, vec![0xFFu8; u16::MAX as usize]);
}

#[test]
fn test_library_transforms() {
    library_transform(NoopPacketDataTransform {}, NoopPacketDataTransform {});

    library_transform(
        OtpPacketDataTransform::<StdRng>::new(3283870128904943616),
        OtpPacketDataTransform::<StdRng>::new(3283870128904943616),
    );

    library_transform(
        ChecksumPacketDataTransform {},
        ChecksumPacketDataTransform {},
    );
}

fn library_transform_max_bytes<T: PacketDataTransform + 'static>(client: T, server: T) {
    let mut tf = framework(client, server);

    let n = tf.write(CLIENT, &vec![0xFFu8; u16::MAX as usize]);
    assert_eq!(n, u16::MAX as usize);
    tf.flush(CLIENT);

    let buf = tf.read_exact(SERVER, u16::MAX as usize);
    assert_eq!(buf.len(), u16::MAX as usize);
    assert_eq!(buf, vec![0xFFu8; u16::MAX as usize]);
}

#[test]
fn test_library_transforms_max_bytes() {
    library_transform_max_bytes(NoopPacketDataTransform {}, NoopPacketDataTransform {});

    library_transform_max_bytes(
        OtpPacketDataTransform::<StdRng>::new(6243752233550921728),
        OtpPacketDataTransform::<StdRng>::new(6243752233550921728),
    );

    library_transform_max_bytes(
        ChecksumPacketDataTransform {},
        ChecksumPacketDataTransform {},
    );
}

#[test]
fn test_junk_data_if_otp_seed_mismatch() {
    let client = OtpPacketDataTransform::<StdRng>::new(50921728);
    let server = OtpPacketDataTransform::<StdRng>::new(62372233);

    let mut tf = framework(client, server);

    let n = tf.write(CLIENT, &vec![0xFFu8; 1024]);
    assert_eq!(n, 1024);
    tf.flush(CLIENT);

    let buf = tf.read_exact(SERVER, 1024);
    assert_eq!(buf.len(), 1024);
    assert_ne!(vec![0xFFu8; 1024], buf);
}

#[test]
fn the_whole_point_is_layering_these_things() {
    // create many layers of transforms, test data transiting through it
    let layers = pipes();
    let layers = on_top(
        layers,
        ChecksumPacketDataTransform {},
        ChecksumPacketDataTransform {},
    );
    let layers = on_top(
        layers,
        OtpPacketDataTransform::<StdRng>::new(6243752233550921728),
        OtpPacketDataTransform::<StdRng>::new(6243752233550921728),
    );
    let layers = on_top(
        layers,
        ChecksumPacketDataTransform {},
        ChecksumPacketDataTransform {},
    );
    let layers = on_top(
        layers,
        OtpPacketDataTransform::<StdRng>::new(721716561223421579),
        OtpPacketDataTransform::<StdRng>::new(721716561223421579),
    );
    let layers = on_top(
        layers,
        ChecksumPacketDataTransform {},
        ChecksumPacketDataTransform {},
    );
    let mut tf = ends(layers);

    // client -> server

    let _n = tf.write(CLIENT, "hey, this works nicely!".as_bytes());
    tf.flush(CLIENT);

    let buf = tf.read(SERVER, 1024);

    assert_eq!(&buf[..], "hey, this works nicely!".as_bytes());

    // server -> client

    let _n = tf.write(SERVER, "yes, in this direction too!".as_bytes());
    tf.flush(SERVER);

    let buf = tf.read(CLIENT, 1024);
    assert_eq!(&buf[..], "yes, in this direction too!".as_bytes());

    // 100K write from client -> server

    let expected = random(100 * 1024);

    let _n = tf.write(CLIENT, &expected);
    tf.flush(CLIENT);

    // read 100K

    let actual = tf.read_exact(SERVER, 100 * 1024);

    assert_eq!(expected, actual);
}

/// The client sends 1024 bytes, the server answers with the most that fits a `u16`.
fn exchange(tf: &mut Ends) {
    // Send 1024 bytes
    let n = tf.write(CLIENT, &vec![0xFFu8; 1024]);
    assert_eq!(n, 1024);
    tf.flush(CLIENT);

    // Receive 1024 bytes
    let buf = tf.read_exact(SERVER, 1024);
    assert_eq!(buf.len(), 1024);
    assert_eq!(vec![0xFFu8; 1024], buf);

    // Send max bytes
    let n = tf.write(SERVER, &vec![0xFFu8; u16::MAX as usize]);
    assert_eq!(n, u16::MAX as usize);
    tf.flush(SERVER);

    // Receive max bytes
    let buf = tf.read_exact(CLIENT, u16::MAX as usize);
    assert_eq!(buf.len(), u16::MAX as usize);
    assert_eq!(buf, vec![0xFFu8; u16::MAX as usize]);
}

fn noise(key: &[u8]) -> (NoisePacketDataTransform, NoisePacketDataTransform) {
    (
        NoisePacketDataTransform::client(key).unwrap(),
        NoisePacketDataTransform::server(key).unwrap(),
    )
}

#[test]
fn test_noise_basic() {
    let (client, server) = noise(&[255u8; 32]);
    exchange(&mut framework(client, server));
}

#[test]
fn test_noise_with_checksum() {
    let (client, server) = noise(&random(32));
    let layers = on_top(pipes(), client, server);
    let layers = on_top(
        layers,
        ChecksumPacketDataTransform {},
        ChecksumPacketDataTransform {},
    );
    exchange(&mut ends(layers));
}

#[test]
fn test_double_noise_all_the_way_across_the_sky() {
    let (client1, server1) = noise(&random(32));
    let (client2, server2) = noise(&random(32));
    let layers = on_top(pipes(), client1, server1);
    let layers = on_top(layers, client2, server2);
    exchange(&mut ends(layers));
}

#[test]
fn test_its_starting_to_look_like_triple_noise() {
    let (client1, server1) = noise(&random(32));
    let (client2, server2) = noise(&random(32));
    let (client3, server3) = noise(&random(32));
    let layers = on_top(pipes(), client1, server1);
    let layers = on_top(layers, client2, server2);
    let layers = on_top(layers, client3, server3);
    exchange(&mut ends(layers));
}

#[test]
fn a_large_handshake_comes_first() {
    let mut tf = framework(
        OtpPacketDataTransform::<StdRng>::client(99),
        OtpPacketDataTransform::<StdRng>::server(99),
    );
    exchange(&mut tf);
}

#[test]
fn the_server_may_write_first() {
    let (client, server) = noise(&[3u8; 32]);
    let mut tf = framework(client, server);
    assert_eq!(tf.write(SERVER, b"welcome"), 7);
    tf.flush(SERVER);
    assert_eq!(tf.read_exact(CLIENT, 7), b"welcome");
    assert_eq!(tf.write(CLIENT, b"thanks"), 6);
    tf.flush(CLIENT);
    assert_eq!(tf.read_exact(SERVER, 6), b"thanks");
}

#[test]
fn both_may_write_at_once_with_noise() {
    let (client, server) = noise(&[3u8; 32]);
    let mut tf = framework(client, server);
    exchange(&mut tf);
    assert_eq!(tf.write(SERVER, b"one way"), 7);
    assert_eq!(tf.write(CLIENT, b"and the other"), 13);
    tf.flush(SERVER);
    tf.flush(CLIENT);
    assert_eq!(tf.read_exact(CLIENT, 7), b"one way");
    assert_eq!(tf.read_exact(SERVER, 13), b"and the other");
}

#[test]
fn different_keys_do_not_connect() {
    let client = NoisePacketDataTransform::client(&[1u8; 32]).unwrap();
    let server = NoisePacketDataTransform::server(&[2u8; 32]).unwrap();
    let mut tf = framework(client, server);
    let mut error = None;
    for _ in 0..20 {
        let _ = tf.ends[CLIENT].poll_read(10);
        if let Poll::Ready(Err(e)) = tf.ends[SERVER].poll_read(10) {
            error = Some(e);
            break;
        }
    }
    assert_eq!(error, Some("decrypt error".to_string()));
}
