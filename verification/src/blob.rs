//! Assembling an image downloaded from blob storage chunk by chunk. The caller
//! pulls the chunks from the remote stream and hands each one over.

use vstd::prelude::*;
use crate::images::cached_type;
use crate::reply::{content, failure, bytes_reply, error_reply, Reply, Status};

verus! {

/// The bytes of a download received so far.
pub struct BlobDownload {
    body: Vec<u8>,
}

impl View for BlobDownload {
    type V = Seq<u8>;

    closed spec fn view(&self) -> Seq<u8> {
        self.body@
    }
}

impl BlobDownload {
    /// A download that has received nothing yet.
    pub fn new() -> (d: BlobDownload)
        ensures
            d@ == Seq::<u8>::empty(),
    {
        BlobDownload { body: Vec::new() }
    }

    /// Appends a received chunk.
    pub fn receive(&mut self, chunk: &[u8])
        ensures
            final(self)@ == old(self)@ + chunk@,
    {
        let mut i: usize = 0;
        while i < chunk.len()
            invariant
                i <= chunk.len(),
                self.body@ == old(self)@ + chunk@.take(i as int),
            decreases chunk.len() - i,
        {
            self.body.push(chunk[i]);
            i = i + 1;
            assert(self.body@ =~= old(self)@ + chunk@.take(i as int));
        }
        assert(chunk@.take(chunk.len() as int) =~= chunk@);
    }

    /// The reply once the stream has ended: every byte received, in order, as a
    /// webp image.
    pub fn finish(self) -> (r: Reply)
        ensures
            r@ == bytes_reply(cached_type(), self@),
    {
        content("image/webp".to_owned(), self.body)
    }
}

/// The error reply when the storage service reports a failure, naming it.
pub fn storage_failure(detail: String) -> (r: Reply)
    ensures
        r@ == error_reply(Status::ServerError, detail@),
{
    failure(Status::ServerError, detail)
}

} // verus!
