//! Chunks: the pieces that a resource is stored in, one post each.

use vstd::prelude::*;
use vstd::string::*;

verus! {

/// The number of bytes in every chunk of a resource but its last one.
pub const CHUNK_SIZE: usize = 80 * 1024;

/// One piece of a resource, as it is posted to a chain.
#[derive(Clone, Debug)]
pub struct Chunk {
    /// The title of the resource, repeated in each of its chunks.
    pub title: String,
    /// The bytes of this piece, in base64.
    pub content: String,
    /// The address of the piece before this one; `None` in the first.
    pub prev: Option<String>,
}

/// A [`Chunk`] as contracts see it.
pub struct ChunkView {
    pub title: Seq<char>,
    pub content: Seq<char>,
    pub prev: Option<Seq<char>>,
}

impl View for Chunk {
    type V = ChunkView;

    open spec fn view(&self) -> ChunkView {
        ChunkView {
            title: self.title@,
            content: self.content@,
            prev: match self.prev {
                Some(prev) => Some(prev@),
                None => None,
            },
        }
    }
}

impl Chunk {
    /// A chunk of the resource `title` that carries `content`, which is base64
    /// already, and points back to `prev`.
    pub fn new(title: &str, content: String, prev: Option<&String>) -> (chunk: Chunk)
        ensures
            chunk@ == (ChunkView {
                title: title@,
                content: content@,
                prev: match prev {
                    Some(prev) => Some(prev@),
                    None => None,
                },
            }),
    {
        Chunk {
            title: String::from_str(title),
            content,
            prev: match prev {
                Some(prev) => Some(prev.clone()),
                None => None,
            },
        }
    }
}

/// The number of chunks that a resource of `len` bytes is stored in: one for each
/// full `CHUNK_SIZE` bytes, and a last one for what is left, be it nothing.
pub open spec fn chunk_count(len: nat) -> nat {
    len / (CHUNK_SIZE as nat) + 1
}

/// The bytes of `source` that its chunk `i` carries.
pub open spec fn piece(source: Seq<u8>, i: int) -> Seq<u8> {
    let end = (i + 1) * CHUNK_SIZE;
    source.subrange(
        i * CHUNK_SIZE,
        if end <= source.len() {
            end
        } else {
            source.len() as int
        },
    )
}

/// The bytes that each chunk of `source` carries, first chunk first.
pub open spec fn pieces(source: Seq<u8>) -> Seq<Seq<u8>> {
    Seq::new(chunk_count(source.len()), |i: int| piece(source, i))
}

/// Every chunk but the last is full, and the last one is not.
pub proof fn lemma_piece_lengths(source: Seq<u8>, i: int)
    requires
        0 <= i < chunk_count(source.len()),
    ensures
        i < chunk_count(source.len()) - 1 ==> piece(source, i).len() == CHUNK_SIZE,
        i == chunk_count(source.len()) - 1 ==> piece(source, i).len() == source.len() % (
        CHUNK_SIZE as nat),
{
}

/// A resource whose length is no multiple of `CHUNK_SIZE` takes as many chunks as its
/// length divided by `CHUNK_SIZE`, rounded up; one whose length is a multiple, the
/// empty resource too, takes one more, which is empty.
pub proof fn lemma_chunk_count(len: nat)
    ensures
        len % (CHUNK_SIZE as nat) != 0 ==> chunk_count(len) == (len + CHUNK_SIZE - 1) / (
        CHUNK_SIZE as int),
        len % (CHUNK_SIZE as nat) == 0 ==> chunk_count(len) == (len + CHUNK_SIZE - 1) / (
        CHUNK_SIZE as int) + 1,
{
}

/// The first `k` chunks of `source` carry its first `k * CHUNK_SIZE` bytes.
proof fn lemma_pieces_prefix(source: Seq<u8>, k: int)
    requires
        0 <= k <= chunk_count(source.len()),
    ensures
        pieces(source).take(k).flatten() == source.take(
            if k * CHUNK_SIZE <= source.len() {
                k * CHUNK_SIZE
            } else {
                source.len() as int
            },
        ),
    decreases k,
{
    let all = pieces(source);
    if k == 0 {
        assert(all.take(0) =~= Seq::<Seq<u8>>::empty());
        assert(source.take(0) =~= Seq::<u8>::empty());
    } else {
        lemma_pieces_prefix(source, k - 1);
        assert(all.take(k) =~= all.take(k - 1).push(piece(source, k - 1)));
        all.take(k - 1).lemma_flatten_push(piece(source, k - 1));
        let end = if k * CHUNK_SIZE <= source.len() {
            k * CHUNK_SIZE
        } else {
            source.len() as int
        };
        assert(source.take((k - 1) * CHUNK_SIZE) + piece(source, k - 1) =~= source.take(end));
    }
}

/// The chunks of a resource, joined in their order, are the resource.
pub proof fn lemma_pieces_join(source: Seq<u8>)
    ensures
        pieces(source).flatten() == source,
{
    let n = chunk_count(source.len()) as int;
    lemma_pieces_prefix(source, n);
    assert(pieces(source).take(n) =~= pieces(source));
    assert(source.take(source.len() as int) =~= source);
}

} // verus!
