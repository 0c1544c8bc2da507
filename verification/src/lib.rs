//! Client side of a push/diff protocol, written without I/O: callers hand in
//! the bytes and events they observed and get back bytes to send and actions
//! to perform.
//!
//! - `net` decides how a host specification is resolved, and `endpoint` how
//!   the client's transport endpoint is set up.
//! - `wire`, `frame`, `serialization` and `proto` define the bytes on the
//!   channels; `stream` has the send and receive halves of a channel.
//! - `session` is the state machine of a session, `consumer` has the
//!   consumers of the two channels from the server, and `size_histogram`
//!   the statistics that the diff consumer keeps.

pub mod consumer;
pub mod endpoint;
pub mod frame;
pub mod net;
pub mod proto;
pub mod serialization;
pub mod session;
pub mod size_histogram;
pub mod stream;
pub mod wire;
