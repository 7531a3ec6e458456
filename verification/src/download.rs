//! Downloading: walking a chain of chunks back to its first one, then writing the
//! chunks out first to last.
//!
//! The crate neither talks to the node nor writes the output. A [`Download`] says
//! what has to be done next, as a [`DownloadRequest`], and is told what came of it, as
//! a [`DownloadReply`].

use crate::address::{parse_spec, parse_uri, resolve_link, resolve_spec};
use crate::chain::{
    check_chain_name, holds_chain, invalid_chain_text, is_chain_name, unknown_chain_text,
};
use crate::chunk::{Chunk, ChunkView};
use crate::codec::{base64_bytes, decode};
use crate::error::{Error, ErrorView};
use crate::reputation::{passes, passes_spec};
use vstd::prelude::*;
use vstd::string::*;

verus! {

/// Where a download stands.
#[derive(Clone, Copy, Debug)]
pub enum DownloadStage {
    /// Walking back: the chains of the node are being asked for.
    Listing,
    /// Walking back: the reputation of the chunk in hand is being asked for.
    Scoring,
    /// Walking back: the chunk in hand is being fetched for its link.
    Linking,
    /// Writing out: the next chunk is being fetched for its content.
    Fetching,
    /// Writing out: the content of a chunk is being written.
    Writing,
    /// Everything has been written.
    Finished,
}

/// The state of one download.
#[derive(Debug)]
pub struct Download {
    chain: String,
    post: String,
    found: Vec<(String, String)>,
    left: usize,
    stage: DownloadStage,
}

/// A [`Download`] as contracts see it.
pub struct DownloadView {
    /// The chain of the chunk in hand while walking back.
    pub chain: Seq<char>,
    /// The post of the chunk in hand while walking back.
    pub post: Seq<char>,
    /// Chain and post of the chunks that were trusted, the one found last at the
    /// end: so the last chunk of the resource comes first.
    pub found: Seq<(Seq<char>, Seq<char>)>,
    /// While writing out: how many chunks of `found` are not written yet. They are
    /// written from the end of `found` to its start.
    pub left: nat,
    pub stage: DownloadStage,
}

/// What the caller of a download has to do next.
#[derive(Debug)]
pub enum DownloadRequest {
    /// Ask the node for the chains it holds, and answer with their names.
    Chains,
    /// Ask the node for the reputation of `post` in `chain`, and answer with it.
    Reputation { chain: String, post: String },
    /// Ask the node for the payload of `post` in `chain`, and answer with the chunk
    /// that it holds.
    Payload { chain: String, post: String },
    /// Write `bytes` to the output, and answer when that is done.
    Write { bytes: Vec<u8> },
    /// Nothing: the download is complete.
    Done,
}

/// A [`DownloadRequest`] as contracts see it.
pub enum DownloadRequestView {
    Chains,
    Reputation { chain: Seq<char>, post: Seq<char> },
    Payload { chain: Seq<char>, post: Seq<char> },
    Write { bytes: Seq<u8> },
    Done,
}

/// What came of a [`DownloadRequest`].
#[derive(Debug)]
pub enum DownloadReply {
    /// The names of the chains that the node holds.
    Chains { names: Vec<String> },
    /// The reputation of the post asked about.
    Reputation { score: isize },
    /// The chunk in the payload asked for.
    Chunk { chunk: Chunk },
    /// The bytes are written.
    Written,
}

/// A [`DownloadReply`] as contracts see it.
pub enum DownloadReplyView {
    Chains { names: Seq<Seq<char>> },
    Reputation { score: int },
    Chunk { chunk: ChunkView },
    Written,
}

/// The views of `names`, in their order.
pub open spec fn texts(names: Seq<String>) -> Seq<Seq<char>> {
    Seq::new(names.len(), |i: int| names[i]@)
}

/// The views of `found`, pair by pair.
pub open spec fn addresses(found: Seq<(String, String)>) -> Seq<(Seq<char>, Seq<char>)> {
    Seq::new(found.len(), |i: int| (found[i].0@, found[i].1@))
}

impl View for DownloadRequest {
    type V = DownloadRequestView;

    open spec fn view(&self) -> DownloadRequestView {
        match self {
            DownloadRequest::Chains => DownloadRequestView::Chains,
            DownloadRequest::Reputation { chain, post } => DownloadRequestView::Reputation {
                chain: chain@,
                post: post@,
            },
            DownloadRequest::Payload { chain, post } => DownloadRequestView::Payload {
                chain: chain@,
                post: post@,
            },
            DownloadRequest::Write { bytes } => DownloadRequestView::Write { bytes: bytes@ },
            DownloadRequest::Done => DownloadRequestView::Done,
        }
    }
}

impl View for DownloadReply {
    type V = DownloadReplyView;

    open spec fn view(&self) -> DownloadReplyView {
        match self {
            DownloadReply::Chains { names } => DownloadReplyView::Chains { names: texts(names@) },
            DownloadReply::Reputation { score } => DownloadReplyView::Reputation {
                score: *score as int,
            },
            DownloadReply::Chunk { chunk } => DownloadReplyView::Chunk { chunk: chunk@ },
            DownloadReply::Written => DownloadReplyView::Written,
        }
    }
}

/// A step of a download: the state it leads to and the request that is then open, or
/// the error that ends the download.
pub type DownloadStep = Result<(DownloadView, DownloadRequestView), ErrorView>;

impl DownloadView {
    /// What holds of every download: while it writes out, the chunk to write next is
    /// one of those found.
    pub open spec fn wf(self) -> bool {
        match self.stage {
            DownloadStage::Fetching | DownloadStage::Writing => 0 < self.left <= self.found.len(),
            _ => true,
        }
    }

    /// Takes the chunk `post` of `chain` in hand, with `found` found so far: the walk
    /// goes on if `chain` can name a chain, by asking the node for its chains.
    pub open spec fn enter(
        chain: Seq<char>,
        post: Seq<char>,
        found: Seq<(Seq<char>, Seq<char>)>,
    ) -> DownloadStep {
        if is_chain_name(chain) {
            Ok(
                (
                    DownloadView { chain, post, found, left: 0, stage: DownloadStage::Listing },
                    DownloadRequestView::Chains,
                ),
            )
        } else {
            Err(ErrorView::Input(invalid_chain_text()))
        }
    }

    /// The first step of the download of the resource whose last chunk is at `uri`,
    /// which has to name the chain.
    pub open spec fn start(uri: Seq<char>) -> DownloadStep {
        match parse_spec(uri) {
            Err(why) => Err(ErrorView::Input(why)),
            Ok((None, _)) => Err(ErrorView::Input("missing chains name on URI"@)),
            Ok((Some(chain), post)) => Self::enter(chain, post, Seq::empty()),
        }
    }

    /// Goes on writing out with `left` chunks still to write: asks for the one found
    /// `left`-th, which is the next of the resource, or is done when none is left.
    pub open spec fn replay(self, left: nat) -> (DownloadView, DownloadRequestView) {
        if left == 0 {
            (
                DownloadView { left: 0, stage: DownloadStage::Finished, ..self },
                DownloadRequestView::Done,
            )
        } else {
            (
                DownloadView { left, stage: DownloadStage::Fetching, ..self },
                DownloadRequestView::Payload {
                    chain: self.found[left - 1].0,
                    post: self.found[left - 1].1,
                },
            )
        }
    }

    /// Whether `reply` answers the request that is open.
    pub open spec fn accepts(self, reply: DownloadReplyView) -> bool {
        match (self.stage, reply) {
            (DownloadStage::Listing, DownloadReplyView::Chains { .. }) => true,
            (DownloadStage::Scoring, DownloadReplyView::Reputation { .. }) => true,
            (DownloadStage::Linking, DownloadReplyView::Chunk { .. }) => true,
            (DownloadStage::Fetching, DownloadReplyView::Chunk { .. }) => true,
            (DownloadStage::Writing, DownloadReplyView::Written) => true,
            _ => false,
        }
    }

    /// The step that `reply` leads to.
    ///
    /// Walking back, a chunk is looked at in three steps. Its chain has to be one of
    /// the node's. Its reputation has to be high enough: only then is it counted as
    /// found and fetched. Its link, if it has one, is followed to the chunk before it;
    /// if it has none it is the first chunk, and the writing starts with it.
    ///
    /// Writing out, each chunk found is fetched once more, from the one found last to
    /// the one found first, and its content is written if it is base64.
    pub open spec fn next(self, reply: DownloadReplyView) -> DownloadStep {
        match reply {
            DownloadReplyView::Chains { names } => if names.contains(self.chain) {
                Ok(
                    (
                        DownloadView { stage: DownloadStage::Scoring, ..self },
                        DownloadRequestView::Reputation { chain: self.chain, post: self.post },
                    ),
                )
            } else {
                Err(ErrorView::Input(unknown_chain_text(self.chain)))
            },
            DownloadReplyView::Reputation { score } => if passes_spec(score) {
                Ok(
                    (
                        DownloadView {
                            found: self.found.push((self.chain, self.post)),
                            stage: DownloadStage::Linking,
                            ..self
                        },
                        DownloadRequestView::Payload { chain: self.chain, post: self.post },
                    ),
                )
            } else {
                Err(ErrorView::LowReputation(self.chain, self.post))
            },
            DownloadReplyView::Chunk { chunk } => match self.stage {
                DownloadStage::Fetching => match base64_bytes(chunk.content) {
                    Some(bytes) => Ok(
                        (
                            DownloadView { stage: DownloadStage::Writing, ..self },
                            DownloadRequestView::Write { bytes },
                        ),
                    ),
                    None => Err(
                        ErrorView::InvalidContent(
                            self.found[self.left - 1].0,
                            self.found[self.left - 1].1,
                        ),
                    ),
                },
                _ => match chunk.prev {
                    None => Ok(self.replay(self.found.len())),
                    Some(prev) => match resolve_spec(prev, self.chain) {
                        Ok((chain, post)) => Self::enter(chain, post, self.found),
                        Err(why) => Err(ErrorView::Input(why)),
                    },
                },
            },
            DownloadReplyView::Written => Ok(self.replay((self.left - 1) as nat)),
        }
    }
}

impl View for Download {
    type V = DownloadView;

    closed spec fn view(&self) -> DownloadView {
        DownloadView {
            chain: self.chain@,
            post: self.post@,
            found: addresses(self.found@),
            left: self.left as nat,
            stage: self.stage,
        }
    }
}

/// The bytes that a chunk carries, given what decoding its content gave; the error
/// that names the chunk, `post` of `chain`, where its content was no base64.
pub fn content_of(decoded: Option<Vec<u8>>, chain: &str, post: &str) -> (r: Result<
    Vec<u8>,
    Error,
>)
    ensures
        match decoded {
            Some(bytes) => r == Ok::<Vec<u8>, Error>(bytes),
            None => r matches Err(e) && e@ == ErrorView::InvalidContent(chain@, post@),
        },
{
    match decoded {
        Some(bytes) => Ok(bytes),
        None => Err(Error::InvalidContentError(String::from_str(chain), String::from_str(post))),
    }
}

impl Download {
    #[verifier::type_invariant]
    spec fn inv(self) -> bool {
        self@.wf()
    }

    /// Where the download stands.
    pub fn stage(&self) -> (stage: DownloadStage)
        ensures
            stage == self@.stage,
    {
        self.stage
    }

    /// Whether `reply` answers the request that is open.
    pub fn accepts(&self, reply: &DownloadReply) -> (ok: bool)
        ensures
            ok == self@.accepts(reply@),
    {
        match (self.stage, reply) {
            (DownloadStage::Listing, DownloadReply::Chains { .. }) => true,
            (DownloadStage::Scoring, DownloadReply::Reputation { .. }) => true,
            (DownloadStage::Linking, DownloadReply::Chunk { .. }) => true,
            (DownloadStage::Fetching, DownloadReply::Chunk { .. }) => true,
            (DownloadStage::Writing, DownloadReply::Written) => true,
            _ => false,
        }
    }

    /// Takes the chunk `post` of `chain` in hand.
    fn enter(chain: String, post: String, found: Vec<(String, String)>) -> (r: Result<
        (Download, DownloadRequest),
        Error,
    >)
        ensures
            match DownloadView::enter(chain@, post@, addresses(found@)) {
                Ok((state, request)) => r matches Ok((s, q)) && s@ == state && q@ == request,
                Err(e) => r matches Err(x) && x@ == e,
            },
    {
        match check_chain_name(chain.as_str()) {
            Ok(()) => Ok(
                (
                    Download { chain, post, found, left: 0, stage: DownloadStage::Listing },
                    DownloadRequest::Chains,
                ),
            ),
            Err(e) => Err(e),
        }
    }

    /// Starts the download of the resource whose last chunk is at `uri`.
    pub(crate) fn start(uri: &str) -> (r: Result<(Download, DownloadRequest), Error>)
        ensures
            match DownloadView::start(uri@) {
                Ok((state, request)) => r matches Ok((s, q)) && s@ == state && q@ == request,
                Err(e) => r matches Err(x) && x@ == e,
            },
    {
        match parse_uri(uri) {
            Err(e) => Err(e),
            Ok((None, _)) => Err(Error::InputError(String::from_str("missing chains name on URI"))),
            Ok((Some(chain), post)) => {
                let found: Vec<(String, String)> = Vec::new();
                assert(addresses(found@) =~= Seq::empty());
                Download::enter(chain, post, found)
            },
        }
    }

    /// Goes on to write the chunk before the `left`-th of those found, or ends.
    fn replay(chain: String, post: String, found: Vec<(String, String)>, left: usize) -> (r: (
        Download,
        DownloadRequest,
    ))
        requires
            left <= found.len(),
        ensures
            (r.0@, r.1@) == (DownloadView {
                chain: chain@,
                post: post@,
                found: addresses(found@),
                left: 0,
                stage: DownloadStage::Listing,
            }).replay(left as nat),
    {
        if left == 0 {
            (
                Download { chain, post, found, left: 0, stage: DownloadStage::Finished },
                DownloadRequest::Done,
            )
        } else {
            let request = DownloadRequest::Payload {
                chain: found[left - 1].0.clone(),
                post: found[left - 1].1.clone(),
            };
            (Download { chain, post, found, left, stage: DownloadStage::Fetching }, request)
        }
    }

    /// Takes the answer to the request that is open, and says what to do next, or
    /// why the download cannot go on.
    pub fn advance(self, reply: DownloadReply) -> (r: Result<(Download, DownloadRequest), Error>)
        requires
            self@.accepts(reply@),
        ensures
            match self@.next(reply@) {
                Ok((state, request)) => r matches Ok((s, q)) && s@ == state && q@ == request,
                Err(e) => r matches Err(x) && x@ == e,
            },
    {
        proof {
            use_type_invariant(&self);
        }
        let Download { chain, post, found, left, stage } = self;
        match reply {
            DownloadReply::Chains { names } => {
                let known = holds_chain(&names, &chain);
                proof {
                    let listed = texts(names@);
                    if known {
                        let i = choose|i: int| 0 <= i < names.len() && names[i]@ == chain@;
                        assert(listed[i] == chain@);
                    } else {
                        assert forall|i: int| 0 <= i < listed.len() implies listed[i]
                            != chain@ by {
                            assert(names[i]@ != chain@);
                        }
                    }
                }
                if known {
                    let request = DownloadRequest::Reputation {
                        chain: chain.clone(),
                        post: post.clone(),
                    };
                    Ok(
                        (
                            Download { chain, post, found, left, stage: DownloadStage::Scoring },
                            request,
                        ),
                    )
                } else {
                    Err(
                        Error::InputError(
                            String::from_str("invalid 'fchs' URI, chain \"").concat(
                                chain.as_str(),
                            ).concat("\" not on Freechains node"),
                        ),
                    )
                }
            },
            DownloadReply::Reputation { score } => {
                if passes(score) {
                    let request = DownloadRequest::Payload {
                        chain: chain.clone(),
                        post: post.clone(),
                    };
                    let mut found = found;
                    let ghost before = addresses(found@);
                    found.push((chain.clone(), post.clone()));
                    assert(addresses(found@) =~= before.push((chain@, post@)));
                    Ok(
                        (
                            Download { chain, post, found, left, stage: DownloadStage::Linking },
                            request,
                        ),
                    )
                } else {
                    Err(Error::LowReputationError(chain, post))
                }
            },
            DownloadReply::Chunk { chunk } => match stage {
                DownloadStage::Fetching => {
                    let decoded = decode(chunk.content.as_str());
                    let bytes = content_of(
                        decoded,
                        found[left - 1].0.as_str(),
                        found[left - 1].1.as_str(),
                    )?;
                    Ok(
                        (
                            Download { chain, post, found, left, stage: DownloadStage::Writing },
                            DownloadRequest::Write { bytes },
                        ),
                    )
                },
                _ => match chunk.prev {
                    None => {
                        let n: usize = found.len();
                        Ok(Download::replay(chain, post, found, n))
                    },
                    Some(prev) => {
                        let (to_chain, to_post) = resolve_link(prev.as_str(), chain.as_str())?;
                        Download::enter(to_chain, to_post, found)
                    },
                },
            },
            DownloadReply::Written => Ok(Download::replay(chain, post, found, left - 1)),
        }
    }
}

} // verus!
