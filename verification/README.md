# async-stomp

A STOMP 1.2 client whose protocol is verified with Verus: the messages, the
frames they travel in, the grammar that frames are read by, and the codec between
bytes and messages.

- `src/frame.rs`, `src/escape.rs`: frames, and how they are written.
- `src/grammar.rs`: how frames are read, and when more bytes are needed.
- `src/convert.rs`, `src/compose.rs`: messages from frames, and frames from
  messages.
- `src/client.rs`, `src/heartbeat.rs`: connections, subscriptions, the codec, and
  heart-beats.
- `src/text.rs`, `src/buffer.rs`: numbers and text, and the byte buffer. What is
  claimed of `bytes::BytesMut` and of the standard library without proof stands
  here.
- `src/model.rs`, `src/error.rs`: messages and errors as mathematical values.
- `src/show.rs`: messages from the server as text, for logs and errors.
- `src/names.rs`: why the names of commands and headers cannot be mistaken for one
  another.
- `src/*_laws.rs`: what holds of the whole. What is written is read back, a body of
  any bytes survives, heart-beats change nothing, and what a server sends is what
  the client gets. Nor does it matter where a stream is cut, except that a frame
  which the cut leaves unfinished is refused if it is past the bound already.
- `app/`: the connection itself, on tokio and rustls.
