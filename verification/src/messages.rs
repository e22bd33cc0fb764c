//! The messages that clients and the relay exchange.
//!
//! A transfer goes as follows. The sender announces a file with `Send`; the
//! relay opens a room under the announced code. The receiver asks for the room
//! with `Get`; the relay answers with `Error` when no room has that code, and
//! with `ApproveReq` (the file's name and size) when one has. The receiver
//! answers `ApproveRes`; on approval the relay tells the sender `Ready`, and the
//! sender streams the file as `ContentMessage` chunks, which the relay forwards.

use vstd::prelude::*;

verus! {

/// Announces a file to be sent under a room code.
#[derive(Debug, PartialEq, Eq)]
pub struct SendMessage {
    pub filename: String,
    pub size: u64,
    pub code: String,
}

/// Asks the relay for the room with the given code.
#[derive(Debug, PartialEq, Eq)]
pub struct GetMessage {
    pub code: String,
}

/// One chunk of the file's bytes.
#[derive(Debug, PartialEq, Eq)]
pub struct ContentMessage {
    pub content: Vec<u8>,
}

/// Asks the receiver to approve a file; `addr` is the sender's address.
#[derive(Debug, PartialEq, Eq)]
pub struct ApproveReqMessage {
    pub filename: String,
    pub size: u64,
    pub addr: String,
}

/// The receiver's answer to an approval request.
#[derive(Debug, PartialEq, Eq)]
pub struct ApproveResMessage {
    pub approved: bool,
}

/// Tells the sender that a receiver approved; `addr` is the receiver's address.
#[derive(Debug, PartialEq, Eq)]
pub struct ReadyMessage {
    pub addr: String,
}

/// A failure reported by the relay.
#[derive(Debug, PartialEq, Eq)]
pub struct ErrorMessage {
    pub text: String,
}

/// A message of the transfer protocol.
#[derive(Debug, PartialEq, Eq)]
pub enum Message {
    ApproveRes(ApproveResMessage),
    ApproveReq(ApproveReqMessage),
    Content(ContentMessage),
    Error(ErrorMessage),
    Get(GetMessage),
    Ready(ReadyMessage),
    Send(SendMessage),
}

/// The mathematical value of a message: its strings as character sequences.
pub enum MessageView {
    ApproveRes { approved: bool },
    ApproveReq { filename: Seq<char>, size: u64, addr: Seq<char> },
    Content { content: Seq<u8> },
    Error { text: Seq<char> },
    Get { code: Seq<char> },
    Ready { addr: Seq<char> },
    Send { filename: Seq<char>, size: u64, code: Seq<char> },
}

impl View for Message {
    type V = MessageView;

    open spec fn view(&self) -> MessageView {
        match self {
            Message::ApproveRes(m) => MessageView::ApproveRes { approved: m.approved },
            Message::ApproveReq(m) => MessageView::ApproveReq {
                filename: m.filename@,
                size: m.size,
                addr: m.addr@,
            },
            Message::Content(m) => MessageView::Content { content: m.content@ },
            Message::Error(m) => MessageView::Error { text: m.text@ },
            Message::Get(m) => MessageView::Get { code: m.code@ },
            Message::Ready(m) => MessageView::Ready { addr: m.addr@ },
            Message::Send(m) => MessageView::Send {
                filename: m.filename@,
                size: m.size,
                code: m.code@,
            },
        }
    }
}

impl Message {
    /// The sender's announcement of `filename` (`size` bytes) under `code`.
    pub fn new_send(filename: String, size: u64, code: String) -> (m: Message)
        ensures
            m@ == (MessageView::Send { filename: filename@, size, code: code@ }),
    {
        Message::Send(SendMessage { filename, size, code })
    }

    /// The relay's request that the receiver approve `filename` (`size` bytes)
    /// coming from `addr`.
    pub fn new_approve_req(filename: String, size: u64, addr: String) -> (m: Message)
        ensures
            m@ == (MessageView::ApproveReq { filename: filename@, size, addr: addr@ }),
    {
        Message::ApproveReq(ApproveReqMessage { filename, size, addr })
    }

    /// The receiver's answer to an approval request.
    pub fn new_approve_res(approved: bool) -> (m: Message)
        ensures
            m@ == (MessageView::ApproveRes { approved }),
    {
        Message::ApproveRes(ApproveResMessage { approved })
    }

    /// The receiver's request for the room with `code`.
    pub fn new_get(code: String) -> (m: Message)
        ensures
            m@ == (MessageView::Get { code: code@ }),
    {
        Message::Get(GetMessage { code })
    }

    /// The relay's signal to the sender that the receiver at `addr` is ready.
    pub fn new_ready(addr: String) -> (m: Message)
        ensures
            m@ == (MessageView::Ready { addr: addr@ }),
    {
        Message::Ready(ReadyMessage { addr })
    }

    /// One chunk of file content. Chunks travel on their own, outside the
    /// `Message` envelope.
    pub fn new_content(content: Vec<u8>) -> (m: ContentMessage)
        ensures
            m.content@ == content@,
    {
        ContentMessage { content }
    }

    /// The relay's report of a failure.
    pub fn new_error(text: String) -> (m: Message)
        ensures
            m@ == (MessageView::Error { text: text@ }),
    {
        Message::Error(ErrorMessage { text })
    }
}

} // verus!
