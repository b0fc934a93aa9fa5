# newkitine

A Soulseek client whose protocol handling and client bookkeeping are
written in Verus and proved against their contracts.

## Layout

- `src/protocol/` — the wire format: length-prefixed frames, the server,
  peer, peer-init, distributed and file-connection messages, share lists
  and their zlib framing. Each message type has a view (its code and the
  fields it carries); encoding and parsing are proved against it.
- `src/network/` — decisions taken on connections: frame size limits and
  which responses a peer may send, the address book, connection attempts
  and their indirect-request tokens, the network step that server
  messages and incoming connections drive, and our place in the
  distributed search network (parent, branch, children).
- `src/client/` — the client's state machines: users and their
  restrictions, searches and the wishlist, the shares index, downloads and
  the upload queue, the session timers, and the dispatch of server
  messages, peer messages and user commands to them. Every function states
  what it changes and which network actions and events it emits.
- `src/text.rs`, `src/types.rs` — text helpers and shared types.
- `app/` — the program around the library: sockets, files, timers, the
  stdin command interface, logging, the shares scan and the transfer
  pacing. It keeps which socket belongs to which user, performs the
  actions the library returns and hands it back what happened.
- `tests/` — tests of the library on concrete values.

## Building

Verus verifies the library from `src/lib.rs`; the crate also builds as an
ordinary Rust library, with `app/` as a binary on top of it.
