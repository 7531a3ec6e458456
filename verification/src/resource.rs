//! Resources: byte streams of any length, stored on a chain as linked chunks.
//!
//! [`upload_resource`] and [`download_resource`] open an upload and a download. Both
//! hand back the request to carry out first, and a state to tell the outcome to.

use crate::address::{colon_free, lemma_parse_render, render_spec};
use crate::chain::is_chain_name;
use crate::chunk::{chunk_count, lemma_pieces_join, piece, pieces};
use crate::codec::{base64_bytes, base64_text};
use crate::download::{Download, DownloadRequest, DownloadView};
use crate::error::Error;
use crate::node::{download, lemma_download_resource, DownloadEnd, Node};
use crate::upload::{
    bytes_read, chunk_of, chunks_posted, hashes_posted, lemma_upload_session, upload_after,
    upload_session, Upload, UploadReplyView, UploadRequest, UploadView,
};
use vstd::prelude::*;

verus! {

/// Opens the upload of a resource called `title`.
///
/// The first request is to read, at most `CHUNK_SIZE` bytes.
pub fn upload_resource(title: &str) -> (r: (Upload, UploadRequest))
    ensures
        r.0@ == UploadView::start(title@),
        r.1@ == r.0@.request(),
{
    let upload = Upload::start(title);
    let request = upload.request();
    (upload, request)
}

/// Opens the download of the resource whose last chunk is at `uri`.
///
/// Fails, before anything is asked of the node, where `uri` is no address, names no
/// chain, or names one that cannot be a chain's name. Otherwise the first request is
/// for the chains of the node.
pub fn download_resource(uri: &str) -> (r: Result<(Download, DownloadRequest), Error>)
    ensures
        match DownloadView::start(uri@) {
            Ok((state, request)) => r matches Ok((s, q)) && s@ == state && q@ == request,
            Err(e) => r matches Err(x) && x@ == e,
        },
{
    Download::start(uri)
}

/// Whether `node` holds what an upload of `source` under `title` left in `chain`, the
/// node having answered its posts with `hashes`: under each hash the chunk that was
/// posted, with a reputation that lets it be trusted.
pub open spec fn holds_upload(
    node: Node,
    chain: Seq<char>,
    title: Seq<char>,
    source: Seq<u8>,
    hashes: Seq<Seq<char>>,
) -> bool {
    &&& hashes.len() == chunk_count(source.len())
    &&& node.chains.contains(chain)
    &&& forall|i: int|
        0 <= i < hashes.len() ==> {
            let place = (chain, #[trigger] hashes[i]);
            &&& node.reputation.dom().contains(place)
            &&& node.trusts(place)
            &&& node.stores(place)
            &&& node.chunks[place] == chunk_of(title, source, hashes, i)
        }
}

/// Whether base64 reads back each piece of `source` from what it wrote for it.
///
/// [`Upload::request`] learns this of every chunk that it hands out, from the call
/// that writes its content.
pub open spec fn reads_back(source: Seq<u8>) -> bool {
    forall|i: int|
        0 <= i < chunk_count(source.len()) ==> base64_bytes(
            base64_text(#[trigger] piece(source, i)),
        ) == Some(piece(source, i))
}

/// The address of the last chunk of an upload to `chain` that the node answered with
/// `hashes`.
pub open spec fn address_of_upload(chain: Seq<char>, hashes: Seq<Seq<char>>) -> Seq<char> {
    render_spec(Some(chain), hashes.last())
}

/// Downloading what was uploaded gives back the bytes that were uploaded: the
/// download writes the pieces of the source, first to last, and is done.
///
/// This holds where neither the name of the chain nor a hash holds a `':'`, which
/// would be read as the end of a chain's name.
pub proof fn lemma_round_trip(
    node: Node,
    chain: Seq<char>,
    title: Seq<char>,
    source: Seq<u8>,
    hashes: Seq<Seq<char>>,
    steps: nat,
)
    requires
        holds_upload(node, chain, title, source, hashes),
        reads_back(source),
        is_chain_name(chain),
        colon_free(chain),
        forall|i: int| 0 <= i < hashes.len() ==> colon_free(#[trigger] hashes[i]),
        steps >= 5 * hashes.len(),
    ensures
        download(node, address_of_upload(chain, hashes), steps).written == pieces(source),
        download(node, address_of_upload(chain, hashes), steps).end == DownloadEnd::Done,
        pieces(source).flatten() == source,
{
    let n = hashes.len() as int;
    let places = Seq::new(n as nat, |i: int| (chain, hashes[i]));
    assert forall|i: int| 0 <= i < n implies node.lists(#[trigger] places[i]) && node.trusts(
        places[i],
    ) && node.stores(places[i]) && node.chunks[places[i]] == chunk_of(
        title,
        source,
        hashes,
        i,
    ) && node.content(places[i]) == Some(piece(source, i)) by {
        let place = (chain, hashes[i]);
        assert(node.stores(place));
        assert(base64_bytes(base64_text(piece(source, i))) == Some(piece(source, i)));
    }
    assert forall|i: int| 0 < i < n implies node.links(#[trigger] places[i], places[i - 1]) by {
        assert(colon_free(hashes[i - 1]));
        lemma_parse_render(None, hashes[i - 1]);
        assert(node.chunks[places[i]] == chunk_of(title, source, hashes, i));
    }
    assert(node.chunks[places[0]] == chunk_of(title, source, hashes, 0));
    assert(colon_free(hashes[n - 1]));
    lemma_parse_render(Some(chain), hashes[n - 1]);
    lemma_download_resource(node, places, address_of_upload(chain, hashes), n, steps);
    assert(node.contents(places, n) =~= pieces(source));
    lemma_pieces_join(source);
}

/// What an upload posted, held by the node under the hashes it answered with, is
/// what [`lemma_round_trip`] asks the node to hold.
pub proof fn lemma_upload_held(
    node: Node,
    chain: Seq<char>,
    title: Seq<char>,
    replies: Seq<UploadReplyView>,
)
    requires
        upload_session(title, replies),
        upload_after(title, replies).stage is Finished,
        node.chains.contains(chain),
        forall|i: int|
            0 <= i < hashes_posted(replies).len() ==> {
                let place = (chain, #[trigger] hashes_posted(replies)[i]);
                &&& node.reputation.dom().contains(place)
                &&& node.trusts(place)
                &&& node.stores(place)
                &&& node.chunks[place] == chunks_posted(title, replies)[i]
            },
    ensures
        holds_upload(node, chain, title, bytes_read(replies), hashes_posted(replies)),
{
    lemma_upload_session(title, replies);
}

} // verus!
