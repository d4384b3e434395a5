//! A ring-relay file distribution library: a cyclic ring of relay nodes
//! forwards injected files hop by hop while a coordinator fans each file
//! out to directly connected listeners.
//!
//! The library holds the verified core: the ring topology, the
//! line-delimited packet codec, the relay forwarding state machine and
//! the coordinator's event dispatch. Network I/O, threads and timing
//! live outside, in the surrounding application.

pub mod codec;
pub mod packet;
pub mod relay;
pub mod ring;
pub mod root;
pub mod wire;
