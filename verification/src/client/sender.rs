//! The sending side: it opens a room under a fresh code, waits until a
//! receiver is ready and sends the file in chunks.

use vstd::prelude::*;
use crate::messages::{ContentMessage, Message, MessageView};
use crate::utils::{chunks_of, gen_room_key, is_room_key, relay_addr_or_default, relay_addr_or_default_spec, CHUNK_SIZE};

verus! {

/// The sending side of a transfer.
pub struct Sender {
    /// The name under which the file is announced.
    pub filename: String,
    /// The room's code, once the room is opened.
    pub code: Option<String>,
    /// The receiver's address, once a receiver is ready.
    pub peer_addr: Option<String>,
    /// The file's size in bytes.
    pub size: u64,
    /// The relay's address, as text.
    pub relay_addr: String,
}

impl Sender {
    /// A sender of `size` bytes under `filename` through the relay at
    /// `relay_addr`, or the public relay when none is given.
    pub fn new(filename: String, size: u64, relay_addr: Option<&str>) -> (s: Sender)
        ensures
            s.filename@ == filename@,
            s.size == size,
            s.relay_addr@ == relay_addr_or_default_spec(relay_addr),
            s.code is None,
            s.peer_addr is None,
    {
        let relay = relay_addr_or_default(relay_addr).to_owned();
        Sender { filename, code: None, peer_addr: None, size, relay_addr: relay }
    }

    /// Opens a room under a fresh code: a room key drawn at random, given to
    /// `create_room_with_code`.
    pub fn create_room(&mut self) -> (m: Message)
        ensures
            final(self).code matches Some(c) && is_room_key(c@, 3) && m@ == (MessageView::Send {
                filename: old(self).filename@,
                size: old(self).size,
                code: c@,
            }),
            final(self).filename == old(self).filename,
            final(self).size == old(self).size,
            final(self).peer_addr == old(self).peer_addr,
            final(self).relay_addr == old(self).relay_addr,
    {
        let code = gen_room_key();
        self.create_room_with_code(code)
    }

    /// Opens a room under `code`: the code is kept, and the returned
    /// announcement of the file under it is to be sent to the relay.
    pub fn create_room_with_code(&mut self, code: String) -> (m: Message)
        ensures
            final(self).code == Some(code),
            m@ == (MessageView::Send { filename: old(self).filename@, size: old(self).size, code: code@ }),
            final(self).filename == old(self).filename,
            final(self).size == old(self).size,
            final(self).peer_addr == old(self).peer_addr,
            final(self).relay_addr == old(self).relay_addr,
    {
        let message = Message::new_send(self.filename.clone(), self.size, code.clone());
        self.code = Some(code);
        message
    }

    /// Takes in the relay's `Ready`, sent once a receiver has approved: it
    /// gives the receiver's address.
    pub fn accept_ready(&mut self, message: Message)
        requires
            message@ is Ready,
        ensures
            final(self).peer_addr matches Some(a) && a@ == message@->Ready_addr,
            final(self).filename == old(self).filename,
            final(self).code == old(self).code,
            final(self).size == old(self).size,
            final(self).relay_addr == old(self).relay_addr,
    {
        match message {
            Message::Ready(m) => {
                self.peer_addr = Some(m.addr);
            },
            _ => {},
        }
    }

    /// The content message carrying one chunk of the file, which holds at
    /// most `CHUNK_SIZE` bytes.
    pub fn chunk_message(&self, chunk: &[u8]) -> (m: ContentMessage)
        requires
            chunk@.len() <= CHUNK_SIZE,
        ensures
            m.content@ == chunk@,
    {
        Message::new_content(vstd::slice::slice_to_vec(chunk))
    }
}

/// Cuts the bytes of a file, read in pieces of any size, into the chunks in
/// which the file is sent: full chunks as soon as they are complete, and the
/// shorter rest at the end.
pub struct Chunker {
    pending: Vec<u8>,
    input: Ghost<Seq<u8>>,
    emitted: Ghost<Seq<Seq<u8>>>,
}

impl Chunker {
    /// The bytes given so far.
    pub closed spec fn input(&self) -> Seq<u8> {
        self.input@
    }

    /// The chunks handed out so far.
    pub closed spec fn emitted(&self) -> Seq<Seq<u8>> {
        self.emitted@
    }

    pub closed spec fn wf(&self) -> bool {
        &&& self.input@ == self.emitted@.flatten() + self.pending@
        &&& self.pending@.len() < CHUNK_SIZE
        &&& forall|i: int| 0 <= i < self.emitted@.len() ==> #[trigger] self.emitted@[i].len() == CHUNK_SIZE
    }

    /// A chunker that has been given nothing.
    pub fn new() -> (c: Chunker)
        ensures
            c.wf(),
            c.input() == Seq::<u8>::empty(),
            c.emitted() == Seq::<Seq<u8>>::empty(),
    {
        let c = Chunker { pending: Vec::new(), input: Ghost(Seq::empty()), emitted: Ghost(Seq::empty()) };
        assert(Seq::<Seq<u8>>::empty().flatten() + Seq::<u8>::empty() =~= Seq::<u8>::empty());
        c
    }

    /// Takes the next bytes read and hands out the chunks they complete, each
    /// of `CHUNK_SIZE` bytes.
    pub fn push(&mut self, data: &[u8]) -> (full: Vec<Vec<u8>>)
        requires
            old(self).wf(),
        ensures
            final(self).wf(),
            final(self).input() == old(self).input() + data@,
            final(self).emitted() == old(self).emitted() + full.deep_view(),
    {
        let mut buf: Vec<u8> = Vec::new();
        std::mem::swap(&mut buf, &mut self.pending);
        let mut more = vstd::slice::slice_to_vec(data);
        buf.append(&mut more);
        let ghost input = self.input@ + data@;
        let ghost old_emitted = self.emitted@;
        let mut full: Vec<Vec<u8>> = Vec::new();
        proof {
            assert(input =~= old_emitted.flatten() + buf@);
            assert(old_emitted + full.deep_view() =~= old_emitted);
        }
        while buf.len() >= CHUNK_SIZE
            invariant
                input == (old_emitted + full.deep_view()).flatten() + buf@,
                forall|i: int| 0 <= i < old_emitted.len() ==> #[trigger] old_emitted[i].len() == CHUNK_SIZE,
                forall|i: int| 0 <= i < full.deep_view().len() ==> #[trigger] full.deep_view()[i].len() == CHUNK_SIZE,
            decreases buf@.len(),
        {
            let rest = buf.split_off(CHUNK_SIZE);
            let ghost chunk = buf@;
            let ghost em = old_emitted + full.deep_view();
            let ghost before = full.deep_view();
            let ghost before_vec = full@;
            full.push(buf);
            buf = rest;
            proof {
                assert forall|k: int| 0 <= k < full.deep_view().len() implies #[trigger] full.deep_view()[k]
                    == before.push(chunk)[k] by {
                    if k < before.len() {
                        assert(full@[k] == before_vec[k]);
                    }
                }
                assert(full.deep_view() =~= before.push(chunk));
                assert(old_emitted + full.deep_view() =~= em.push(chunk));
                em.lemma_flatten_push(chunk);
                assert(input =~= em.push(chunk).flatten() + buf@);
            }
        }
        proof {
            let em = old_emitted + full.deep_view();
            assert forall|i: int| 0 <= i < em.len() implies #[trigger] em[i].len() == CHUNK_SIZE by {
                if i >= old_emitted.len() {
                    assert(em[i] == full.deep_view()[i - old_emitted.len()]);
                }
            }
            self.input@ = input;
            self.emitted@ = em;
        }
        self.pending = buf;
        full
    }

    /// Hands out the last, shorter chunk, if bytes are left over. The chunks
    /// handed out then are exactly the chunks of everything given.
    pub fn finish(self) -> (last: Option<Vec<u8>>)
        requires
            self.wf(),
        ensures
            self.emitted() + match last {
                Some(c) => seq![c@],
                None => Seq::<Seq<u8>>::empty(),
            } == chunks_of(self.input()),
    {
        proof {
            lemma_chunks_of_full_prefix(self.emitted@, self.pending@);
        }
        if self.pending.len() == 0 {
            proof {
                assert(self.emitted@ + Seq::<Seq<u8>>::empty() =~= self.emitted@);
            }
            None
        } else {
            Some(self.pending)
        }
    }
}

/// Full chunks followed by a rest are cut back into those chunks and the
/// chunks of the rest.
pub proof fn lemma_chunks_of_full_prefix(full: Seq<Seq<u8>>, rest: Seq<u8>)
    requires
        forall|i: int| 0 <= i < full.len() ==> #[trigger] full[i].len() == CHUNK_SIZE,
    ensures
        chunks_of(full.flatten() + rest) == full + chunks_of(rest),
    decreases full.len(),
{
    if full.len() == 0 {
        assert(Seq::<Seq<u8>>::empty().flatten() + rest =~= rest);
        assert(full + chunks_of(rest) =~= chunks_of(rest));
    } else {
        let x = full.first();
        let tail = full.drop_first();
        assert(full[0].len() == CHUNK_SIZE);
        assert forall|i: int| 0 <= i < tail.len() implies #[trigger] tail[i].len() == CHUNK_SIZE by {
            assert(tail[i] == full[i + 1]);
        }
        lemma_chunks_of_full_prefix(tail, rest);
        let y = tail.flatten() + rest;
        assert(full.flatten() == x + tail.flatten());
        assert(full.flatten() + rest =~= x + y);
        let data = x + y;
        if y.len() == 0 {
            assert(data =~= x);
            assert(chunks_of(y) =~= Seq::<Seq<u8>>::empty());
        } else {
            assert(data.take(CHUNK_SIZE as int) =~= x);
            assert(data.skip(CHUNK_SIZE as int) =~= y);
        }
        assert(chunks_of(data) =~= seq![x] + chunks_of(y));
        assert(full =~= seq![x] + tail);
        assert(seq![x] + (tail + chunks_of(rest)) =~= full + chunks_of(rest));
    }
}

} // verus!
