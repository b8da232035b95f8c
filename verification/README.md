# unix_ipc

A minimal abstraction over UNIX domain sockets for the purpose of IPC. It lets processes send
each other bytes, file handles and serialized values.

## How it works

A message is a header, which announces the length of the payload and the number of file
descriptors, and the payload. The descriptors travel as ancillary data beside the first bytes of
the payload. A typed channel sends values that are serialized with bincode; file handles in them
are serialized as indices into the list of descriptors that is sent beside the message.

## Layout

- `src/` is the library, verified with Verus. It does no I/O: it says which call to make on a
  socket next, and is told what came of it. `src/laws.rs` states what holds of all the calls that
  send or receive a message.
- `app/` runs the library on tokio: it makes the calls, registers sockets with the runtime, and
  implements serde's traits.
- `tests/` are the library's tests.
