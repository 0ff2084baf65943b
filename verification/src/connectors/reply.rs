use vstd::prelude::*;

verus! {

/// Why a read from a stream failed, as far as the readers care.
#[derive(Debug, Clone, Copy, PartialEq, Eq)]
pub enum ReadFailure {
    WouldBlock,
    TimedOut,
    UnexpectedEof,
    Other,
}

/// What one read from a stream gave: bytes, none of them at the end of the
/// stream, or a failure.
pub open spec fn read_view(read: Result<&[u8], ReadFailure>) -> Result<Seq<u8>, ReadFailure> {
    match read {
        Ok(data) => Ok(data@),
        Err(failure) => Err(failure),
    }
}

/// Whether collecting a reply goes on.
#[derive(Debug, Clone, Copy, PartialEq, Eq)]
pub enum ReplyProgress {
    /// More may come: read again.
    More,
    /// The reply is what has been collected.
    Done,
    /// The stream failed: there is no reply.
    Failed,
}

/// What a read means for a reply: the end of the stream and silence both
/// complete it, since a target may keep the connection open; any other failure
/// is a failure.
pub open spec fn reply_progress(read: Result<Seq<u8>, ReadFailure>) -> ReplyProgress {
    match read {
        Ok(data) => if data.len() == 0 {
            ReplyProgress::Done
        } else {
            ReplyProgress::More
        },
        Err(ReadFailure::WouldBlock) => ReplyProgress::Done,
        Err(ReadFailure::TimedOut) => ReplyProgress::Done,
        Err(_) => ReplyProgress::Failed,
    }
}

/// The bytes that a read adds.
pub open spec fn read_bytes(read: Result<Seq<u8>, ReadFailure>) -> Seq<u8> {
    match read {
        Ok(data) => data,
        Err(_) => Seq::empty(),
    }
}

/// Collects a reply from a stream with a read timeout, until the target closes
/// the stream or falls silent. Bytes beyond a first response are collected too.
#[derive(Debug)]
pub struct ReplyReader {
    response: Vec<u8>,
}

impl View for ReplyReader {
    type V = Seq<u8>;

    closed spec fn view(&self) -> Seq<u8> {
        self.response@
    }
}

impl ReplyReader {
    /// A reader that has collected nothing yet.
    pub fn new() -> (r: Self)
        ensures
            r@ == Seq::<u8>::empty(),
    {
        ReplyReader { response: Vec::new() }
    }

    /// Takes in what one read gave.
    pub fn on_read(&mut self, read: Result<&[u8], ReadFailure>) -> (progress: ReplyProgress)
        ensures
            progress == reply_progress(read_view(read)),
            final(self)@ == old(self)@ + read_bytes(read_view(read)),
    {
        match read {
            Ok(data) => {
                self.response.extend_from_slice(data);
                assert(self.response@ == old(self)@ + data@);
                if data.len() == 0 {
                    ReplyProgress::Done
                } else {
                    ReplyProgress::More
                }
            },
            Err(failure) => {
                assert(self@ == old(self)@ + read_bytes(read_view(read)));
                match failure {
                    ReadFailure::WouldBlock | ReadFailure::TimedOut => ReplyProgress::Done,
                    _ => ReplyProgress::Failed,
                }
            },
        }
    }

    /// The collected reply.
    pub fn into_response(self) -> (r: Vec<u8>)
        ensures
            r@ == self@,
    {
        self.response
    }
}

/// The outcome of a series of reads, starting with `response` collected:
/// `None` while the reply is not complete, then the reply or a failure.
pub open spec fn reply_run(
    response: Seq<u8>,
    reads: Seq<Result<Seq<u8>, ReadFailure>>,
) -> Option<Result<Seq<u8>, ()>>
    decreases reads.len(),
{
    if reads.len() == 0 {
        None
    } else {
        let collected = response + read_bytes(reads[0]);
        match reply_progress(reads[0]) {
            ReplyProgress::More => reply_run(collected, reads.drop_first()),
            ReplyProgress::Done => Some(Ok(collected)),
            ReplyProgress::Failed => Some(Err(())),
        }
    }
}

/// All bytes of a series of reads.
pub open spec fn all_bytes(pieces: Seq<Seq<u8>>) -> Seq<u8>
    decreases pieces.len(),
{
    if pieces.len() == 0 {
        Seq::empty()
    } else {
        pieces[0] + all_bytes(pieces.drop_first())
    }
}

/// A reply is everything that arrives before the target closes the stream or
/// falls silent, without loss, whatever the pieces it arrives in.
pub proof fn law_reply_is_all_bytes(
    response: Seq<u8>,
    pieces: Seq<Seq<u8>>,
    end: Result<Seq<u8>, ReadFailure>,
)
    requires
        forall|i: int| 0 <= i < pieces.len() ==> (#[trigger] pieces[i]).len() > 0,
        reply_progress(end) == ReplyProgress::Done,
    ensures
        reply_run(
            response,
            pieces.map_values(|p: Seq<u8>| Ok::<Seq<u8>, ReadFailure>(p)).push(end),
        ) == Some(Ok::<Seq<u8>, ()>(response + all_bytes(pieces))),
    decreases pieces.len(),
{
    let reads = pieces.map_values(|p: Seq<u8>| Ok::<Seq<u8>, ReadFailure>(p)).push(end);
    if pieces.len() == 0 {
        assert(reads[0] == end);
        assert(response + read_bytes(end) == response);
        assert(response + all_bytes(pieces) == response);
    } else {
        let rest = pieces.drop_first();
        assert(reads.drop_first() == rest.map_values(
            |p: Seq<u8>| Ok::<Seq<u8>, ReadFailure>(p),
        ).push(end));
        assert(reads[0] == Ok::<Seq<u8>, ReadFailure>(pieces[0]));
        law_reply_is_all_bytes(response + pieces[0], rest, end);
        assert(response + pieces[0] + all_bytes(rest) == response + all_bytes(pieces));
    }
}

} // verus!
