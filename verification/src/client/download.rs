//! The receiving side's collection of a file's chunks.

use vstd::prelude::*;
use crate::utils::{chunk_count, chunks_of, lemma_chunks_of};

verus! {

broadcast use vstd::seq_lib::group_seq_properties;

/// The chunks of a file received so far, against the number expected.
pub struct Download {
    expected: u64,
    received: u64,
    buffer: Vec<u8>,
    chunks: Ghost<Seq<Seq<u8>>>,
}

impl Download {
    /// How many chunks the file comes in.
    pub closed spec fn expected(&self) -> nat {
        self.expected as nat
    }

    /// The chunks received so far, in order.
    pub closed spec fn chunks(&self) -> Seq<Seq<u8>> {
        self.chunks@
    }

    /// The bytes received so far.
    pub open spec fn bytes(&self) -> Seq<u8> {
        self.chunks().flatten()
    }

    pub closed spec fn wf(&self) -> bool {
        &&& self.received == self.chunks@.len()
        &&& self.received <= self.expected
        &&& self.buffer@ == self.chunks@.flatten()
    }

    /// A download of a file that comes in `expected` chunks.
    pub fn new(expected: u64) -> (d: Download)
        ensures
            d.wf(),
            d.expected() == expected,
            d.chunks() == Seq::<Seq<u8>>::empty(),
    {
        Download { expected, received: 0, buffer: Vec::new(), chunks: Ghost(Seq::empty()) }
    }

    /// How many chunks are still to come.
    pub fn remaining(&self) -> (n: u64)
        requires
            self.wf(),
        ensures
            n == self.expected() - self.chunks().len(),
    {
        self.expected - self.received
    }

    /// Whether every chunk has arrived.
    pub fn is_complete(&self) -> (done: bool)
        requires
            self.wf(),
        ensures
            done == (self.chunks().len() == self.expected()),
    {
        self.received == self.expected
    }

    /// Adds the next chunk's content.
    pub fn accept_chunk(&mut self, content: Vec<u8>)
        requires
            old(self).wf(),
            old(self).chunks().len() < old(self).expected(),
        ensures
            final(self).wf(),
            final(self).expected() == old(self).expected(),
            final(self).chunks() == old(self).chunks().push(content@),
    {
        let mut content = content;
        let ghost piece = content@;
        self.buffer.append(&mut content);
        self.received = self.received + 1;
        proof {
            self.chunks@.lemma_flatten_push(piece);
            self.chunks@ = self.chunks@.push(piece);
        }
    }

    /// The bytes received so far.
    pub fn content(&self) -> (bytes: &Vec<u8>)
        requires
            self.wf(),
        ensures
            bytes@ == self.bytes(),
    {
        &self.buffer
    }

    /// The bytes received, giving up the download.
    pub fn into_content(self) -> (bytes: Vec<u8>)
        requires
            self.wf(),
        ensures
            bytes@ == self.bytes(),
    {
        self.buffer
    }
}

/// A download expecting as many chunks as a file's size gives, which has
/// accepted the chunks in which the file is sent, is complete and holds the
/// file, byte for byte.
pub proof fn lemma_download_reassembles(d: Download, file: Seq<u8>)
    requires
        d.wf(),
        d.expected() == chunk_count(file.len() as int),
        d.chunks() == chunks_of(file),
    ensures
        d.chunks().len() == d.expected(),
        d.bytes() == file,
{
    lemma_chunks_of(file);
}

} // verus!
