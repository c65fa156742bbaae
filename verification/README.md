# rethink_driver

A RethinkDB driver whose protocol logic is verified with Verus.

- `src/` is the verified library: the frame headers and the incremental
  reader and writer of frames (`wire`), the SCRAM-SHA-256 handshake as a
  state machine (`auth`), the reply decoding rules (`query`), document ids
  (`id`), the cursor over batched replies (`cursor`) and the request
  scheduler that lets queries share one stream (`scheduler`). Calls into
  `hmac`, `sha2`, `pbkdf2`, `base64`, `stringprep` and `rand` go through the
  contracts in `trusted`.
- `app/` is the I/O layer around it: TCP and TLS streams, the blocking and the
  asynchronous connection, the serde forms of the messages, and the query
  term builder.
- `tests/` runs the library on concrete values.
