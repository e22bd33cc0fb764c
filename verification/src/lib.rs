//! Steve's Super Transfer Program: the protocol messages, the relay's room
//! registry and session state machine, and the sending and receiving
//! clients' decisions, with their contracts.

pub mod messages;
pub mod utils;
pub mod relay;
pub mod client;
pub mod transfer;
