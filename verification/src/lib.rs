//! Components for a small actor-based robot controller: a typed registry of
//! actor mailboxes, the motor actor's state machine, and the framing of the
//! packets exchanged with the PID motor controller over a serial line.
//!
//! Everything here is plain computation; the runtime (tasks, channels,
//! serial ports and sockets) drives it from the outside.

pub mod actor_system;
pub mod motor;
pub mod pid;
