//! A local inter-process-communication RPC server library: the verified core
//! of a request/response protocol spoken over a filesystem-addressed stream
//! socket.  The modules here hold the per-connection read/write state machine,
//! the message framing scanner, the bounded connection table, the event
//! dispatch rules, and the start/stop lifecycle controller.  Actual socket and
//! reactor plumbing lives outside the library and drives these functions.
pub mod connection;
pub mod dispatch;
pub mod framing;
pub mod lifecycle;
pub mod rpc;
pub mod table;
