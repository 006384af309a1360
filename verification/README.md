# magic_orb

A fixed-size, heap-stored ring buffer that overwrites its oldest items when
full, with every operation proved against a sequence model.

- `src/model.rs`: the sequence model (contents oldest first, `overwrite`,
  `pop_newest`) and the laws proved about it.
- `src/ring_buffer.rs`: `RingBuffer<T>`, the buffer itself, whose every
  operation is proved against the model.
- `src/magic_orb.rs`: `MagicOrb<T>`, a cloneable handle that keeps a
  `RingBuffer` behind vstd's verified reader-writer lock, so that it can be
  shared between threads through `&self`.
