//! The clients: the sending side, the receiving side and its download.

pub mod download;
pub mod getter;
pub mod sender;

pub use download::Download;
pub use getter::Getter;
pub use sender::{Chunker, Sender};

use vstd::prelude::*;

verus! {

/// A client of the relay, able to send or to receive a file.
pub struct Client {}

impl Client {
    pub fn new() -> (c: Client) {
        Client {}
    }
}

} // verus!
