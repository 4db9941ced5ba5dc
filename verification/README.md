# moq-mmtp

MMTP over MoQ: a library, written in Rust and verified with Verus, for
publishing MMTP packets on MoQ tracks and for reading them back. What the
functions under `src/` do is stated in contracts that Verus proves, but for the
few that only hand a call on to outside code.

- `wire`, `vi64`, `kvp`, `text`: bytes, integers, key-value pairs and texts.
- `draft19`: SETUP, GOAWAY, frames, and the life of control and request streams.
- `session`: the draft-19 session, subscriptions, and the objects of a stream.
- `serve`: tracks of datagrams and of subgroups, the objects of a subgroup, and
  the contents of a track.
- `watch`: the cell that two sides of a track share.
- `mmt`, `carriage`, `publisher`: MMTP headers, FEC metadata, the routing of
  packets to tracks, framing, reconnecting and sockets.
- `catalog`: the catalog and its validation.
- `quic`, `profile`, `params`: what two ends negotiate.
- `canary`, `sub_raw`: the decisions of the two small tools.

What the library relies on without proof is the behaviour of these calls: those
on `bytes::Bytes` (`src/wire.rs`), `String::from_utf8` (`src/text.rs`) and
`url::Url::parse` (`src/catalog.rs`). Each stands behind a function whose comment
says what is taken for granted.

Time is a number of milliseconds, which the caller reads from its clock. State
that several tasks share in a running program is passed to the library as one
value; `app/` holds the sockets, files, command lines and tasks around it, as one
program with a subcommand for each tool. The program sets sessions up, but cannot
put requests and objects on the wire: their coding belongs to another crate.
