//! The promise of the whole program: a file sent through the relay reaches
//! the receiver byte for byte.

use vstd::prelude::*;
use crate::client::download::{lemma_download_reassembles, Download};
use crate::messages::MessageView;
use crate::relay::{forwards, lemma_approved_transfer, performed, relay_run, ActionView, EventView, RoomView, SessionView};
use crate::utils::{chunk_count, chunks_of, lemma_chunks_of, CHUNK_SIZE};

verus! {

/// A file announced with its length and sent in its chunks gets through whole.
/// For an approved request for its room, the relay moves exactly as many
/// chunks from the sender as the sender has, each of at most `CHUNK_SIZE`
/// bytes, and closes the room; a download started from the announced size
/// expects that many chunks and, once it has accepted them, holds the file.
/// The chunks the sender sends are `chunks_of(file)` however the file was read:
/// that is what `Chunker::finish` ensures of what a `Chunker` hands out.
pub proof fn lemma_transfer_delivers_file(
    file: Seq<u8>,
    rooms: Map<Seq<char>, RoomView>,
    code: Seq<char>,
    receiver: u64,
    receiver_addr: Seq<char>,
    now: u64,
    download: Download,
)
    requires
        rooms.contains_key(code),
        rooms[code].size == file.len(),
        download.wf(),
        download.expected() == chunk_count(rooms[code].size as int),
        download.chunks() == chunks_of(file),
    ensures
        ({
            let r = rooms[code];
            let n = chunks_of(file).len();
            let events = seq![
                EventView::Received(MessageView::Get { code }),
                EventView::Received(MessageView::ApproveRes { approved: true }),
            ] + performed((n + 1) as int);
            relay_run(SessionView::AwaitingRequest, rooms, receiver, receiver_addr, now, events) == (
                SessionView::Closed,
                rooms.remove(code),
                seq![
                    ActionView::Reply(MessageView::ApproveReq { filename: r.filename, size: r.size, addr: r.sender_addr }),
                    ActionView::Notify { sender: r.sender, message: MessageView::Ready { addr: receiver_addr } },
                ] + forwards(r.sender, n).push(ActionView::Close),
            )
        }),
        forall|i: int| 0 <= i < chunks_of(file).len() ==> #[trigger] chunks_of(file)[i].len() <= CHUNK_SIZE,
        download.chunks().len() == download.expected(),
        download.bytes() == file,
{
    lemma_chunks_of(file);
    lemma_approved_transfer(rooms, receiver, receiver_addr, now, code);
    lemma_download_reassembles(download, file);
    let r = rooms[code];
    assert(chunk_count(r.size as int) as u64 == chunks_of(file).len());
}

} // verus!
