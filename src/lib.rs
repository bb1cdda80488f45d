//! A message relay: connected clients send discrete messages, and each text or
//! binary message is forwarded to every other client connected at that time.
//!
//! The library holds the relay's decisions as plain-value code: the client
//! registry, the per-connection reader state machine, and the admission of
//! upgraded connections. Sockets, tasks and locks live with the caller, which
//! takes the registry's lock around each call that reads or changes it.
pub mod laws;
pub mod reader;
pub mod registry;
pub mod relay;
