//! The per-process state of a Binder IPC driver: handle tables, owned nodes,
//! the thread pool, death notifications, the buffer arena and the freeze
//! control, as a state machine with verified transitions.

pub mod buffers;
pub mod context;
pub mod errors;
pub mod inner;
pub mod ioctl;
pub mod laws;
pub mod lifecycle;
pub mod node;
pub mod node_ref;
pub mod node_refs;
pub mod peers;
pub mod process;
pub mod range_alloc;
pub mod thread;
pub mod work;
