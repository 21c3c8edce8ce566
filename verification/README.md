# tokio_solicit

An HTTP/2 client built on Tokio and solicit, whose logic is verified with Verus.

- `src/io.rs`: the buffering between the HTTP/2 connection and the socket. `FrameSender`
  queues serialized frames and hands their bytes out in order; `FrameReceiver` collects the
  bytes read off the socket and cuts complete frames off its front. The socket loops are step
  functions that take what the socket reported and say what to do next.
- `src/client/client_wrapper.rs`: the requests an `H2Client` issues (pseudo-headers, caller's
  headers, optional body).
- `src/client/tokio_layer.rs`: the transport's bookkeeping (stream ids, request/stream mapping,
  completed responses, flushing decisions) and the client preface.
- `src/client/tls.rs`: accepting a TLS session only if ALPN chose `h2`.
- `src/client/mod.rs`: the request/response types and the errors.
- `app/`: the futures-based client, the Tokio protocol and transport glue, solicit's frame
  traits, and TLS over openssl, all driving the library above.
