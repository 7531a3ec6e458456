//! Uploading: cutting a stream of bytes into chunks and chaining them.
//!
//! The crate neither reads the stream nor talks to the node. An [`Upload`] says what
//! has to be done next, as an [`UploadRequest`], and is told what came of it, as an
//! [`UploadReply`].

use crate::address::{render_spec, render_uri};
use crate::chunk::{chunk_count, piece, Chunk, ChunkView, CHUNK_SIZE};
use crate::codec::{base64_bytes, base64_text, encode};
use vstd::prelude::*;
use vstd::string::*;

verus! {

/// Where an upload stands.
#[derive(Clone, Copy, Debug)]
pub enum UploadStage {
    /// The chunk in hand is being filled from the stream.
    Reading,
    /// The chunk in hand is to be posted; `last` says that the stream has ended.
    Posting { last: bool },
    /// All chunks have been posted.
    Finished,
}

/// The state of one upload.
#[derive(Debug)]
pub struct Upload {
    title: String,
    filling: Vec<u8>,
    prev: Option<String>,
    stage: UploadStage,
}

/// An [`Upload`] as contracts see it.
pub struct UploadView {
    /// The title that every chunk gets.
    pub title: Seq<char>,
    /// The bytes gathered for the chunk in hand.
    pub filling: Seq<u8>,
    /// The address of the chunk posted last.
    pub prev: Option<Seq<char>>,
    pub stage: UploadStage,
}

/// What the caller of an upload has to do next.
#[derive(Debug)]
pub enum UploadRequest {
    /// Read from the stream, at most `limit` bytes, and answer with what was read.
    Read { limit: usize },
    /// Post `chunk` to the chain, and answer with the hash of the post.
    Post { chunk: Chunk },
    /// Nothing: the upload is complete.
    Done,
}

/// An [`UploadRequest`] as contracts see it.
pub enum UploadRequestView {
    Read { limit: nat },
    Post { chunk: ChunkView },
    Done,
}

/// What came of an [`UploadRequest`].
#[derive(Debug)]
pub enum UploadReply {
    /// The bytes that one read gave; none where the stream has ended.
    Read { bytes: Vec<u8> },
    /// The hash under which the node holds the chunk.
    Posted { hash: String },
}

/// An [`UploadReply`] as contracts see it.
pub enum UploadReplyView {
    Read { bytes: Seq<u8> },
    Posted { hash: Seq<char> },
}

impl View for UploadRequest {
    type V = UploadRequestView;

    open spec fn view(&self) -> UploadRequestView {
        match self {
            UploadRequest::Read { limit } => UploadRequestView::Read { limit: *limit as nat },
            UploadRequest::Post { chunk } => UploadRequestView::Post { chunk: chunk@ },
            UploadRequest::Done => UploadRequestView::Done,
        }
    }
}

impl View for UploadReply {
    type V = UploadReplyView;

    open spec fn view(&self) -> UploadReplyView {
        match self {
            UploadReply::Read { bytes } => UploadReplyView::Read { bytes: bytes@ },
            UploadReply::Posted { hash } => UploadReplyView::Posted { hash: hash@ },
        }
    }
}

impl UploadView {
    /// The upload of a resource called `title`, before anything was read.
    pub open spec fn start(title: Seq<char>) -> UploadView {
        UploadView { title, filling: Seq::empty(), prev: None, stage: UploadStage::Reading }
    }

    /// What holds of every upload: the chunk in hand is no longer than `CHUNK_SIZE`,
    /// and while it is being filled it is shorter.
    pub open spec fn wf(self) -> bool {
        &&& self.filling.len() <= CHUNK_SIZE
        &&& self.stage is Reading ==> self.filling.len() < CHUNK_SIZE
    }

    /// Whether `reply` answers the request that is open: bytes that fit into the chunk
    /// in hand while reading, a hash while posting.
    pub open spec fn accepts(self, reply: UploadReplyView) -> bool {
        match (self.stage, reply) {
            (UploadStage::Reading, UploadReplyView::Read { bytes }) => self.filling.len()
                + bytes.len() <= CHUNK_SIZE,
            (UploadStage::Posting { .. }, UploadReplyView::Posted { .. }) => true,
            _ => false,
        }
    }

    /// The request that is open.
    ///
    /// A chunk is posted with the title of the upload, the bytes gathered for it in
    /// base64, and a link to the chunk posted before it.
    pub open spec fn request(self) -> UploadRequestView {
        match self.stage {
            UploadStage::Reading => UploadRequestView::Read {
                limit: (CHUNK_SIZE - self.filling.len()) as nat,
            },
            UploadStage::Posting { .. } => UploadRequestView::Post {
                chunk: ChunkView {
                    title: self.title,
                    content: base64_text(self.filling),
                    prev: self.prev,
                },
            },
            UploadStage::Finished => UploadRequestView::Done,
        }
    }

    /// The upload after `reply`.
    ///
    /// Bytes read join the chunk in hand, which is posted once it holds `CHUNK_SIZE`
    /// bytes. A read that gives nothing ends the stream: the chunk in hand is posted
    /// as the last one, whatever it holds. After a post the next chunk starts empty,
    /// with a link to the one just posted.
    pub open spec fn next(self, reply: UploadReplyView) -> UploadView {
        match reply {
            UploadReplyView::Read { bytes } => if bytes.len() == 0 {
                UploadView { stage: UploadStage::Posting { last: true }, ..self }
            } else {
                UploadView {
                    filling: self.filling + bytes,
                    stage: if self.filling.len() + bytes.len() == CHUNK_SIZE {
                        UploadStage::Posting { last: false }
                    } else {
                        UploadStage::Reading
                    },
                    ..self
                }
            },
            UploadReplyView::Posted { hash } => UploadView {
                filling: Seq::empty(),
                prev: Some(render_spec(None, hash)),
                stage: if self.stage == (UploadStage::Posting { last: true }) {
                    UploadStage::Finished
                } else {
                    UploadStage::Reading
                },
                ..self
            },
        }
    }
}

impl View for Upload {
    type V = UploadView;

    closed spec fn view(&self) -> UploadView {
        UploadView {
            title: self.title@,
            filling: self.filling@,
            prev: match self.prev {
                Some(prev) => Some(prev@),
                None => None,
            },
            stage: self.stage,
        }
    }
}

impl Upload {
    #[verifier::type_invariant]
    spec fn inv(self) -> bool {
        self@.wf()
    }

    /// Starts the upload of a resource called `title`.
    pub(crate) fn start(title: &str) -> (upload: Upload)
        ensures
            upload@ == UploadView::start(title@),
    {
        Upload {
            title: String::from_str(title),
            filling: Vec::new(),
            prev: None,
            stage: UploadStage::Reading,
        }
    }

    /// Where the upload stands.
    pub fn stage(&self) -> (stage: UploadStage)
        ensures
            stage == self@.stage,
    {
        self.stage
    }

    /// The request that is open.
    pub fn request(&self) -> (request: UploadRequest)
        ensures
            request@ == self@.request(),
            request matches UploadRequest::Post { chunk } ==> base64_bytes(chunk@.content) == Some(
                self@.filling,
            ),
    {
        proof {
            use_type_invariant(self);
        }
        match self.stage {
            UploadStage::Reading => UploadRequest::Read { limit: CHUNK_SIZE - self.filling.len() },
            UploadStage::Posting { .. } => UploadRequest::Post {
                chunk: Chunk::new(
                    self.title.as_str(),
                    encode(self.filling.as_slice()),
                    self.prev.as_ref(),
                ),
            },
            UploadStage::Finished => UploadRequest::Done,
        }
    }

    /// Whether `reply` answers the request that is open.
    pub fn accepts(&self, reply: &UploadReply) -> (ok: bool)
        ensures
            ok == self@.accepts(reply@),
    {
        proof {
            use_type_invariant(self);
        }
        match (self.stage, reply) {
            (UploadStage::Reading, UploadReply::Read { bytes }) => bytes.len() <= CHUNK_SIZE
                - self.filling.len(),
            (UploadStage::Posting { .. }, UploadReply::Posted { .. }) => true,
            _ => false,
        }
    }

    /// Takes the answer to the request that is open, and says what to do next.
    pub fn advance(self, reply: UploadReply) -> (r: (Upload, UploadRequest))
        requires
            self@.accepts(reply@),
        ensures
            r.0@ == self@.next(reply@),
            r.1@ == r.0@.request(),
            r.1 matches UploadRequest::Post { chunk } ==> base64_bytes(chunk@.content) == Some(
                r.0@.filling,
            ),
    {
        proof {
            use_type_invariant(&self);
        }
        let Upload { title, filling, prev, stage } = self;
        let next = match reply {
            UploadReply::Read { bytes } => {
                if bytes.len() == 0 {
                    Upload { title, filling, prev, stage: UploadStage::Posting { last: true } }
                } else {
                    let mut filling = filling;
                    let mut bytes = bytes;
                    filling.append(&mut bytes);
                    let stage = if filling.len() == CHUNK_SIZE {
                        UploadStage::Posting { last: false }
                    } else {
                        UploadStage::Reading
                    };
                    Upload { title, filling, prev, stage }
                }
            },
            UploadReply::Posted { hash } => {
                let last = match stage {
                    UploadStage::Posting { last } => last,
                    _ => false,
                };
                Upload {
                    title,
                    filling: Vec::new(),
                    prev: Some(render_uri(None, hash.as_str())),
                    stage: if last {
                        UploadStage::Finished
                    } else {
                        UploadStage::Reading
                    },
                }
            },
        };
        let request = next.request();
        (next, request)
    }
}

/// The upload of a resource called `title` after `replies`, taken in their order.
pub open spec fn upload_after(title: Seq<char>, replies: Seq<UploadReplyView>) -> UploadView
    decreases replies.len(),
{
    if replies.len() == 0 {
        UploadView::start(title)
    } else {
        upload_after(title, replies.drop_last()).next(replies.last())
    }
}

/// Whether `replies` can be the replies of one upload: each answers the request that
/// is open when it comes.
pub open spec fn upload_session(title: Seq<char>, replies: Seq<UploadReplyView>) -> bool {
    forall|k: int|
        0 <= k < replies.len() ==> (#[trigger] upload_after(title, replies.take(k))).accepts(
            replies[k],
        )
}

/// The bytes that the reads among `replies` gave, joined in their order.
pub open spec fn bytes_read(replies: Seq<UploadReplyView>) -> Seq<u8>
    decreases replies.len(),
{
    if replies.len() == 0 {
        Seq::empty()
    } else {
        match replies.last() {
            UploadReplyView::Read { bytes } => bytes_read(replies.drop_last()) + bytes,
            _ => bytes_read(replies.drop_last()),
        }
    }
}

/// The hashes that the posts among `replies` gave, in their order.
pub open spec fn hashes_posted(replies: Seq<UploadReplyView>) -> Seq<Seq<char>>
    decreases replies.len(),
{
    if replies.len() == 0 {
        Seq::empty()
    } else {
        match replies.last() {
            UploadReplyView::Posted { hash } => hashes_posted(replies.drop_last()).push(hash),
            _ => hashes_posted(replies.drop_last()),
        }
    }
}

/// The chunks that the upload of `title` asked to post while it got `replies`, in
/// their order.
pub open spec fn chunks_posted(title: Seq<char>, replies: Seq<UploadReplyView>) -> Seq<
    ChunkView,
>
    decreases replies.len(),
{
    if replies.len() == 0 {
        Seq::empty()
    } else {
        let before = chunks_posted(title, replies.drop_last());
        match (upload_after(title, replies.drop_last()).request(), replies.last()) {
            (UploadRequestView::Post { chunk }, UploadReplyView::Posted { .. }) => before.push(
                chunk,
            ),
            _ => before,
        }
    }
}

/// The link that chunk `i` of a resource holds, where `hashes` are the hashes of its
/// chunks: none in the first chunk, the address of chunk `i - 1` in the others,
/// written without a chain.
pub open spec fn link_of(hashes: Seq<Seq<char>>, i: int) -> Option<Seq<char>> {
    if i == 0 {
        None
    } else {
        Some(render_spec(None, hashes[i - 1]))
    }
}

/// Chunk `i` of the resource `source` called `title`, where `hashes` are the hashes
/// of its chunks.
pub open spec fn chunk_of(
    title: Seq<char>,
    source: Seq<u8>,
    hashes: Seq<Seq<char>>,
    i: int,
) -> ChunkView {
    ChunkView { title, content: base64_text(piece(source, i)), prev: link_of(hashes, i) }
}

/// The chunks of the resource `source` called `title`, where `hashes` are the hashes
/// of its chunks.
pub open spec fn chunks_of(title: Seq<char>, source: Seq<u8>, hashes: Seq<Seq<char>>) -> Seq<
    ChunkView,
> {
    Seq::new(chunk_count(source.len()), |i: int| chunk_of(title, source, hashes, i))
}

/// What holds of an upload after any replies that it accepted.
spec fn session_inv(title: Seq<char>, replies: Seq<UploadReplyView>) -> bool {
    let state = upload_after(title, replies);
    let source = bytes_read(replies);
    let hashes = hashes_posted(replies);
    let posted = chunks_posted(title, replies);
    let m = hashes.len() as int;
    &&& state.wf()
    &&& state.title == title
    &&& posted.len() == m
    &&& state.prev == link_of(hashes, m)
    &&& forall|i: int| 0 <= i < m ==> #[trigger] posted[i] == chunk_of(title, source, hashes, i)
    &&& match state.stage {
        UploadStage::Reading => {
            &&& source.len() == m * CHUNK_SIZE + state.filling.len()
            &&& state.filling == source.skip(m * CHUNK_SIZE)
        },
        UploadStage::Posting { last } => {
            &&& source.len() == m * CHUNK_SIZE + state.filling.len()
            &&& state.filling == source.skip(m * CHUNK_SIZE)
            &&& last ==> state.filling.len() < CHUNK_SIZE
            &&& !last ==> state.filling.len() == CHUNK_SIZE
        },
        UploadStage::Finished => {
            &&& m >= 1
            &&& (m - 1) * CHUNK_SIZE <= source.len() < m * CHUNK_SIZE
        },
    }
}

proof fn lemma_session_inv(title: Seq<char>, replies: Seq<UploadReplyView>)
    requires
        upload_session(title, replies),
    ensures
        session_inv(title, replies),
    decreases replies.len(),
{
    if replies.len() == 0 {
        assert(bytes_read(replies).skip(0) =~= Seq::<u8>::empty());
    } else {
        let before = replies.drop_last();
        let reply = replies.last();
        assert forall|k: int| 0 <= k < before.len() implies (#[trigger] upload_after(
            title,
            before.take(k),
        )).accepts(before[k]) by {
            assert(before.take(k) =~= replies.take(k));
        }
        lemma_session_inv(title, before);
        assert(replies.take(replies.len() - 1) =~= before);
        let old_state = upload_after(title, before);
        assert(old_state.accepts(reply));
        let state = upload_after(title, replies);
        let old_source = bytes_read(before);
        let source = bytes_read(replies);
        let old_hashes = hashes_posted(before);
        let hashes = hashes_posted(replies);
        let old_posted = chunks_posted(title, before);
        let posted = chunks_posted(title, replies);
        let m = old_hashes.len() as int;
        match reply {
            UploadReplyView::Read { bytes } => {
                assert(state.filling =~= source.skip(m * CHUNK_SIZE));
                assert forall|i: int| 0 <= i < m implies #[trigger] posted[i] == chunk_of(
                    title,
                    source,
                    hashes,
                    i,
                ) by {
                    assert(old_posted[i] == chunk_of(title, old_source, old_hashes, i));
                    assert(piece(source, i) =~= piece(old_source, i));
                }
            },
            UploadReplyView::Posted { hash } => {
                assert(piece(old_source, m) =~= old_state.filling);
                if state.stage is Reading {
                    assert(state.filling =~= source.skip((m + 1) * CHUNK_SIZE));
                }
                assert forall|i: int| 0 <= i < m + 1 implies #[trigger] posted[i] == chunk_of(
                    title,
                    source,
                    hashes,
                    i,
                ) by {
                    if i < m {
                        assert(old_posted[i] == chunk_of(title, old_source, old_hashes, i));
                    }
                }
            },
        }
    }
}

/// An upload, wherever it stands, has posted the first chunks of what it read so
/// far, each linked to the one before it, and one chunk for each hash it was given.
pub proof fn lemma_upload_so_far(title: Seq<char>, replies: Seq<UploadReplyView>)
    requires
        upload_session(title, replies),
    ensures
        upload_after(title, replies).wf(),
        chunks_posted(title, replies).len() == hashes_posted(replies).len(),
        forall|i: int|
            0 <= i < hashes_posted(replies).len() ==> #[trigger] chunks_posted(title, replies)[i]
                == chunk_of(title, bytes_read(replies), hashes_posted(replies), i),
{
    lemma_session_inv(title, replies);
}

/// An upload that has come to its end posted the chunks of what it read, each linked
/// to the one before it: as many as [`chunk_count`] says, full but for the last, in
/// the order of the bytes.
pub proof fn lemma_upload_session(title: Seq<char>, replies: Seq<UploadReplyView>)
    requires
        upload_session(title, replies),
        upload_after(title, replies).stage is Finished,
    ensures
        hashes_posted(replies).len() == chunk_count(bytes_read(replies).len()),
        chunks_posted(title, replies) == chunks_of(
            title,
            bytes_read(replies),
            hashes_posted(replies),
        ),
{
    lemma_session_inv(title, replies);
    let len = bytes_read(replies).len() as int;
    let m = hashes_posted(replies).len() as int;
    assert(len / (CHUNK_SIZE as int) == m - 1) by (nonlinear_arith)
        requires
            (m - 1) * CHUNK_SIZE <= len < m * CHUNK_SIZE,
            CHUNK_SIZE > 0,
    ;
    assert(chunks_posted(title, replies) =~= chunks_of(
        title,
        bytes_read(replies),
        hashes_posted(replies),
    ));
}

} // verus!
