//! The receiving side: it asks the relay for a room, learns the file's name,
//! size and sender, answers the approval request and downloads the chunks.

use vstd::prelude::*;
use vstd::string::*;
use crate::client::download::Download;
use crate::messages::{ErrorMessage, Message, MessageView};
use crate::utils::{calc_chunks, chunk_count, relay_addr_or_default, relay_addr_or_default_spec};

verus! {

/// The receiving side of a transfer.
pub struct Getter {
    /// The code of the room to join.
    pub code: String,
    /// The relay's address, as text.
    pub relay_addr: String,
    /// The file's name, once the relay has told it.
    pub filename: Option<String>,
    /// The file's size in bytes, once the relay has told it.
    pub size: Option<u64>,
    /// The sender's address, once the relay has told it.
    pub peer_addr: Option<String>,
}

impl Getter {
    /// A receiver for room `code` (which must be given) through the relay at
    /// `relay_addr`, or the public relay when none is given.
    pub fn new(code: Option<&str>, relay_addr: Option<&str>) -> (g: Getter)
        requires
            code is Some,
        ensures
            g.code@ == code.unwrap()@,
            g.relay_addr@ == relay_addr_or_default_spec(relay_addr),
            g.filename is None,
            g.size is None,
            g.peer_addr is None,
    {
        let code = match code {
            Some(c) => c.to_owned(),
            None => String::new(),
        };
        let relay = relay_addr_or_default(relay_addr).to_owned();
        Getter { code, relay_addr: relay, filename: None, size: None, peer_addr: None }
    }

    /// The request for the room.
    pub fn room_request(&self) -> (m: Message)
        ensures
            m@ == (MessageView::Get { code: self.code@ }),
    {
        Message::new_get(self.code.clone())
    }

    /// Takes in the relay's answer to the room request, which is an approval
    /// request or an error: an approval request gives the file's name and size
    /// and the sender's address; an error is handed back and changes nothing.
    pub fn accept_room_reply(&mut self, reply: Message) -> (r: Result<(), ErrorMessage>)
        requires
            reply@ is ApproveReq || reply@ is Error,
        ensures
            match reply@ {
                MessageView::ApproveReq { filename, size, addr } => {
                    &&& r is Ok
                    &&& final(self).code == old(self).code
                    &&& final(self).relay_addr == old(self).relay_addr
                    &&& final(self).filename matches Some(f) && f@ == filename
                    &&& final(self).size == Some(size)
                    &&& final(self).peer_addr matches Some(a) && a@ == addr
                },
                _ => {
                    &&& r matches Err(e) && e.text@ == reply@->Error_text
                    &&& *final(self) == *old(self)
                },
            },
    {
        match reply {
            Message::ApproveReq(req) => {
                self.filename = Some(req.filename);
                self.size = Some(req.size);
                self.peer_addr = Some(req.addr);
                Ok(())
            },
            Message::Error(e) => Err(e),
            _ => Ok(()),
        }
    }

    /// The answer to the approval request.
    pub fn approval_reply(&self, approved: bool) -> (m: Message)
        ensures
            m@ == (MessageView::ApproveRes { approved }),
    {
        Message::new_approve_res(approved)
    }

    /// The download of the file, which comes in as many chunks as its size
    /// gives.
    pub fn start_transfer(&self) -> (d: Download)
        requires
            self.size is Some,
        ensures
            d.wf(),
            d.expected() == chunk_count(self.size.unwrap() as int),
            d.chunks() == Seq::<Seq<u8>>::empty(),
    {
        let size = match self.size {
            Some(s) => s,
            None => 0,
        };
        Download::new(calc_chunks(size))
    }
}

} // verus!
