# async_io_packet

`AsyncIoPacket` is a layer on top of anything that implements Tokio's AsyncRead and
AsyncWrite, that itself implements AsyncRead and AsyncWrite. It frames data written
through it into packets, and optionally performs a transform on the packeted data.
Layers can be put on top of layers.

The library under `src/` is verified with Verus. It does no input or output: reading,
writing and flushing are sequences of steps, each of which names the next action and
takes in what came of the last one.

- `frame`: the wire format
- `outgoing`, `incoming`: the packets that wait to be written, and those received
- `transform`: what a layer asks of a transform
- `noop_transform`, `checksum_transform`, `otp_transform`, `noise_transform`: the
  transforms
- `pad_rng`, `snow_link`, `shown`: what is taken on trust of the `rand` and `snow`
  crates, and of formatting
- `step`, `flow`, `packet`: the steps, the model of a layer, and the layer itself
- `delivery`, `sessions`, `layers`: what holds of two layers that are connected, of
  each of the transforms, and of layers on top of layers
- `pieces`: what holds of any bytes that arrive, in whatever pieces
- `error`: what can go wrong, and the words for it

`app/` puts the layer on Tokio's streams.
