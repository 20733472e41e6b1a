# websocket_client_async

An asynchronous websocket client for the browser, whose decisions are verified with Verus.

- `src/reader.rs`: the bytes received and not yet read. Reads (`read_buffered`,
  `read_chunk`, `write_remaining`) and the buffered interface (`fill_buf`,
  `fill_chunk`, `consume`) are specified over the sequence of pending bytes; the
  laws there prove that the reader is an ordered byte stream.
- `src/client.rs`: the client state (address, disconnect flag) and what each send,
  flush and close must do; the laws there prove that disconnecting is final.
- `src/connect.rs`: the websocket URLs, the outcome of the open handshake, and
  whether a finished reader task disconnects the client.
- `app/`: the socket, the browser callbacks, the message channel and the actor that
  serialises sends; it performs the I/O that the library plans.
