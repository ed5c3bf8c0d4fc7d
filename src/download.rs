use vstd::prelude::*;

verus! {

/// What a download has written once the given chunks were written in turn.
pub open spec fn written_by(chunks: Seq<Seq<u8>>) -> Seq<u8> {
    chunks.flatten_alt()
}

/// What to do with the next pull from a response body.
#[derive(Debug)]
pub enum DownloadStep {
    /// Append these bytes to the destination.
    Write(Vec<u8>),
    /// The body is exhausted; this many bytes were written in all.
    Finish(u64),
}

/// A streamed download in progress: the chunks received so far, in order.
/// Nothing is buffered: each chunk is handed back to be written at once.
pub struct Download {
    written: u64,
    received: Ghost<Seq<Seq<u8>>>,
}

impl Download {
    pub closed spec fn chunks(&self) -> Seq<Seq<u8>> {
        self.received@
    }

    pub closed spec fn written(&self) -> u64 {
        self.written
    }

    /// The count of written bytes is the length of what the chunks wrote.
    pub open spec fn wf(&self) -> bool {
        self.written() as nat == written_by(self.chunks()).len()
    }

    pub fn new() -> (r: Download)
        ensures
            r.wf(),
            r.chunks() == Seq::<Seq<u8>>::empty(),
            r.written() == 0,
    {
        Download { written: 0, received: Ghost(Seq::empty()) }
    }

    pub fn bytes_written(&self) -> (r: u64)
        ensures
            r == self.written(),
    {
        self.written
    }

    /// Takes the next pull from the body: a chunk is passed on to be written,
    /// the end of the body finishes the download.
    pub fn step(&mut self, next: Option<Vec<u8>>) -> (r: DownloadStep)
        requires
            old(self).wf(),
            next is Some ==> old(self).written() + next->0@.len() <= u64::MAX,
        ensures
            final(self).wf(),
            match next {
                Some(chunk) => {
                    &&& r == DownloadStep::Write(chunk)
                    &&& final(self).chunks() == old(self).chunks().push(chunk@)
                    &&& final(self).written() == old(self).written() + chunk@.len()
                },
                None => {
                    &&& r == DownloadStep::Finish(old(self).written())
                    &&& final(self).chunks() == old(self).chunks()
                    &&& final(self).written() == old(self).written()
                },
            },
    {
        match next {
            Some(chunk) => {
                let ghost before = self.received@;
                self.written = self.written + chunk.len() as u64;
                self.received = Ghost(before.push(chunk@));
                assert(self.received@.drop_last() =~= before);
                DownloadStep::Write(chunk)
            },
            None => DownloadStep::Finish(self.written),
        }
    }
}

/// A download that has received the chunks of a body, however the body was
/// split, has written that body byte for byte and counts its length.
pub proof fn download_writes_body(d: Download, body: Seq<u8>)
    requires
        d.wf(),
        d.chunks().flatten() == body,
    ensures
        written_by(d.chunks()) == body,
        d.written() == body.len(),
{
    chunking_is_invisible(d.chunks(), body);
}

/// However a body is split into chunks, writing the chunks in turn writes the
/// body byte for byte, and as many bytes as it holds.
pub proof fn chunking_is_invisible(chunks: Seq<Seq<u8>>, body: Seq<u8>)
    requires
        chunks.flatten() == body,
    ensures
        written_by(chunks) == body,
        written_by(chunks).len() == body.len(),
{
    chunks.lemma_flatten_and_flatten_alt_are_equivalent();
}

} // verus!
