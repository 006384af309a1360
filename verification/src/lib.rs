//! A fixed-size, heap-stored ring buffer that overwrites its oldest items,
//! together with a lock-protected handle that can be shared between threads.
pub mod magic_orb;
pub mod model;
pub mod ring_buffer;

pub use magic_orb::MagicOrb;
pub use ring_buffer::RingBuffer;
