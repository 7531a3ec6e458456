//! A download as a whole, against a model of what the node holds.
//!
//! [`download`] plays a download from its first request to its end, each request
//! answered as a node with the given content would answer it. The lemmas say what
//! such a download asks, what it writes and how it ends.

use crate::address::{parse_spec, resolve_spec};
use crate::chain::is_chain_name;
use crate::chunk::ChunkView;
use crate::codec::base64_bytes;
use crate::download::{DownloadReplyView, DownloadRequestView, DownloadStage, DownloadView};
use crate::error::ErrorView;
use crate::reputation::passes_spec;
use vstd::prelude::*;

verus! {

/// A chunk's place: its chain and its post.
pub type Place = (Seq<char>, Seq<char>);

/// What a node holds, as far as a download asks for it.
pub struct Node {
    /// The names of its chains.
    pub chains: Seq<Seq<char>>,
    /// The reputation of its posts.
    pub reputation: Map<Place, int>,
    /// The chunks in the payloads of its posts.
    pub chunks: Map<Place, ChunkView>,
}

/// How a download ended.
pub enum DownloadEnd {
    /// It wrote everything.
    Done,
    /// It gave up with this error.
    Failed(ErrorView),
    /// The node had no answer to a request.
    Unanswered,
    /// It was stopped before its end.
    Open,
}

/// What a download did.
pub struct DownloadRun {
    /// What it asked of the node, in the order of the requests.
    pub asked: Seq<DownloadRequestView>,
    /// The bytes of each of its writes, in their order.
    pub written: Seq<Seq<u8>>,
    /// How it ended.
    pub end: DownloadEnd,
}

impl Node {
    /// The answer to `request`; `None` where the node knows nothing of the post asked
    /// about, and when nothing is asked.
    pub open spec fn answer(self, request: DownloadRequestView) -> Option<DownloadReplyView> {
        match request {
            DownloadRequestView::Chains => Some(DownloadReplyView::Chains { names: self.chains }),
            DownloadRequestView::Reputation { chain, post } => if self.reputation.dom().contains(
                (chain, post),
            ) {
                Some(DownloadReplyView::Reputation { score: self.reputation[(chain, post)] })
            } else {
                None
            },
            DownloadRequestView::Payload { chain, post } => if self.chunks.dom().contains(
                (chain, post),
            ) {
                Some(DownloadReplyView::Chunk { chunk: self.chunks[(chain, post)] })
            } else {
                None
            },
            DownloadRequestView::Write { .. } => Some(DownloadReplyView::Written),
            DownloadRequestView::Done => None,
        }
    }

    /// Whether the walk back can look at the chunk at `place`: the node holds its
    /// chain and knows its reputation.
    pub open spec fn lists(self, place: Place) -> bool {
        &&& is_chain_name(place.0)
        &&& self.chains.contains(place.0)
        &&& self.reputation.dom().contains(place)
    }

    /// Whether the reputation of the chunk at `place` is high enough.
    pub open spec fn trusts(self, place: Place) -> bool {
        passes_spec(self.reputation[place])
    }

    /// Whether the node holds a chunk at `place`.
    pub open spec fn stores(self, place: Place) -> bool {
        self.chunks.dom().contains(place)
    }

    /// Whether the chunk at `from` links to the chunk at `to`.
    pub open spec fn links(self, from: Place, to: Place) -> bool {
        self.chunks[from].prev matches Some(prev) && resolve_spec(prev, from.0) == Ok::<
            Place,
            Seq<char>,
        >(to)
    }

    /// The bytes that the chunk at `place` carries; `None` where its content is no
    /// base64.
    pub open spec fn content(self, place: Place) -> Option<Seq<u8>> {
        base64_bytes(self.chunks[place].content)
    }

    /// Whether the chunks at `places` are a chain that the walk back can follow from
    /// the last to the first: each but the first is trusted, is held by the
    /// node and links to the one before it.
    pub open spec fn holds_chain(self, places: Seq<Place>) -> bool {
        &&& places.len() > 0
        &&& forall|i: int| 0 <= i < places.len() ==> self.lists(#[trigger] places[i])
        &&& forall|i: int|
            0 < i < places.len() ==> self.trusts(#[trigger] places[i]) && self.stores(places[i])
        &&& forall|i: int|
            0 < i < places.len() ==> self.links(#[trigger] places[i], places[i - 1])
    }

    /// Whether the chunks at `places` are a whole resource, first chunk first: a
    /// chain whose first chunk is trusted too, is held too, and has no link.
    pub open spec fn holds_resource(self, places: Seq<Place>) -> bool {
        &&& self.holds_chain(places)
        &&& self.trusts(places[0])
        &&& self.stores(places[0])
        &&& self.chunks[places[0]].prev is None
    }

    /// The bytes that the first `k` chunks at `places` carry.
    pub open spec fn contents(self, places: Seq<Place>, k: int) -> Seq<Seq<u8>> {
        Seq::new(k as nat, |i: int| self.content(places[i]).unwrap())
    }
}

/// The download that is in `state` with `request` open, played for at most `steps`
/// answers of `node`.
pub open spec fn download_run(
    node: Node,
    state: DownloadView,
    request: DownloadRequestView,
    steps: nat,
) -> DownloadRun
    decreases steps,
{
    if request is Done {
        DownloadRun { asked: Seq::empty(), written: Seq::empty(), end: DownloadEnd::Done }
    } else if steps == 0 {
        DownloadRun { asked: Seq::empty(), written: Seq::empty(), end: DownloadEnd::Open }
    } else {
        let (asked, written) = match request {
            DownloadRequestView::Write { bytes } => (Seq::empty(), seq![bytes]),
            _ => (seq![request], Seq::empty()),
        };
        match node.answer(request) {
            None => DownloadRun { asked, written, end: DownloadEnd::Unanswered },
            Some(reply) => match state.next(reply) {
                Err(e) => DownloadRun { asked, written, end: DownloadEnd::Failed(e) },
                Ok((state, request)) => {
                    let rest = download_run(node, state, request, (steps - 1) as nat);
                    DownloadRun {
                        asked: asked + rest.asked,
                        written: written + rest.written,
                        end: rest.end,
                    }
                },
            },
        }
    }
}

/// The download of the resource whose last chunk is at `uri`, played for at most
/// `steps` answers of `node`.
pub open spec fn download(node: Node, uri: Seq<char>, steps: nat) -> DownloadRun {
    match DownloadView::start(uri) {
        Err(e) => DownloadRun {
            asked: Seq::empty(),
            written: Seq::empty(),
            end: DownloadEnd::Failed(e),
        },
        Ok((state, request)) => download_run(node, state, request, steps),
    }
}

/// The request for the reputation of the chunk at `place`.
pub open spec fn reputation_of(place: Place) -> DownloadRequestView {
    DownloadRequestView::Reputation { chain: place.0, post: place.1 }
}

/// The request for the payload of the chunk at `place`.
pub open spec fn payload_of(place: Place) -> DownloadRequestView {
    DownloadRequestView::Payload { chain: place.0, post: place.1 }
}

/// What the walk back asks about a chunk that it passes: the chains of the node, the
/// reputation of the chunk, and its payload.
pub open spec fn looks(place: Place) -> Seq<DownloadRequestView> {
    seq![DownloadRequestView::Chains, reputation_of(place), payload_of(place)]
}

/// What the walk back asks while it passes the chunks of `places` from chunk `j`
/// down to chunk `to`, in that order.
pub open spec fn walk_asks(places: Seq<Place>, j: int, to: int) -> Seq<DownloadRequestView>
    decreases j - to + 1,
{
    if j < to {
        Seq::empty()
    } else {
        looks(places[j]) + walk_asks(places, j - 1, to)
    }
}

/// The requests for the payloads of the first `m` chunks of `places`, first chunk
/// first.
pub open spec fn fetches(places: Seq<Place>, m: int) -> Seq<DownloadRequestView> {
    Seq::new(m as nat, |i: int| payload_of(places[i]))
}

/// How many chunks of `places` are fetched for writing when the first `k` carry
/// base64: those, and the one after them that does not, if there is one.
pub open spec fn fetched(places: Seq<Place>, k: int) -> int {
    if k < places.len() {
        k + 1
    } else {
        k
    }
}

/// How the download of `places` ends when the first `k` chunks carry base64: done
/// where these are all, failed on chunk `k` where they are not.
pub open spec fn end_of(places: Seq<Place>, k: int) -> DownloadEnd {
    if k == places.len() {
        DownloadEnd::Done
    } else {
        DownloadEnd::Failed(ErrorView::InvalidContent(places[k].0, places[k].1))
    }
}

/// The chunks found once the walk back has passed chunk `j` of `places`: those from
/// `j` on, the last one first.
spec fn walked(places: Seq<Place>, j: int) -> Seq<Place> {
    Seq::new((places.len() - j) as nat, |i: int| places[places.len() - 1 - i])
}

/// The download as the walk back takes chunk `j` of `places` in hand.
spec fn walking(places: Seq<Place>, j: int) -> DownloadView {
    DownloadView {
        chain: places[j].0,
        post: places[j].1,
        found: walked(places, j + 1),
        left: 0,
        stage: DownloadStage::Listing,
    }
}

/// The download as it fetches chunk `i` of `places` to write it.
spec fn writing(places: Seq<Place>, i: int) -> DownloadView {
    DownloadView {
        chain: places[0].0,
        post: places[0].1,
        found: walked(places, 0),
        left: (places.len() - i) as nat,
        stage: DownloadStage::Fetching,
    }
}

/// The walk back from chunk `j` of a chain comes to its first chunk in three steps
/// for each chunk passed, and writes nothing on the way.
proof fn lemma_walk(node: Node, places: Seq<Place>, j: int, steps: nat)
    requires
        node.holds_chain(places),
        0 <= j < places.len(),
        steps >= 3 * j,
    ensures
        ({
            let rest = download_run(
                node,
                walking(places, 0),
                DownloadRequestView::Chains,
                (steps - 3 * j) as nat,
            );
            download_run(node, walking(places, j), DownloadRequestView::Chains, steps) == (
            DownloadRun {
                asked: walk_asks(places, j, 1) + rest.asked,
                written: rest.written,
                end: rest.end,
            })
        }),
    decreases j,
{
    let r0 = download_run(node, walking(places, j), DownloadRequestView::Chains, steps);
    if j > 0 {
        let place = places[j];
        assert(node.lists(place));
        assert(node.trusts(place) && node.stores(place));
        assert(node.links(place, places[j - 1]));
        assert(node.lists(places[j - 1]));
        let s0 = walking(places, j);
        let s1 = DownloadView { stage: DownloadStage::Scoring, ..s0 };
        let q1 = reputation_of(place);
        let s2 = DownloadView {
            found: s0.found.push(place),
            stage: DownloadStage::Linking,
            ..s0
        };
        let q2 = payload_of(place);
        let s3 = walking(places, j - 1);
        assert(s0.found.push(place) =~= walked(places, j));
        assert(s0.next(node.answer(DownloadRequestView::Chains).unwrap()) == Ok::<
            (DownloadView, DownloadRequestView),
            ErrorView,
        >((s1, q1)));
        assert(s1.next(node.answer(q1).unwrap()) == Ok::<
            (DownloadView, DownloadRequestView),
            ErrorView,
        >((s2, q2)));
        assert(s2.next(node.answer(q2).unwrap()) == Ok::<
            (DownloadView, DownloadRequestView),
            ErrorView,
        >((s3, DownloadRequestView::Chains)));
        let r3 = download_run(node, s3, DownloadRequestView::Chains, (steps - 3) as nat);
        let r2 = download_run(node, s2, q2, (steps - 2) as nat);
        let r1 = download_run(node, s1, q1, (steps - 1) as nat);
        assert(r2.asked == seq![q2] + r3.asked && r2.written =~= r3.written);
        assert(r1.asked == seq![q1] + r2.asked && r1.written =~= r2.written);
        assert(r0.asked == seq![DownloadRequestView::Chains] + r1.asked && r0.written
            =~= r1.written);
        assert(r0.asked =~= looks(place) + r3.asked);
        lemma_walk(node, places, j - 1, (steps - 3) as nat);
        let rest = download_run(
            node,
            walking(places, 0),
            DownloadRequestView::Chains,
            (steps - 3 * j) as nat,
        );
        assert(r0.asked =~= walk_asks(places, j, 1) + rest.asked);
    } else {
        assert(walk_asks(places, 0, 1) + r0.asked =~= r0.asked);
    }
}

/// Writing out from chunk `i` of a resource writes the chunks up to the first whose
/// content is no base64, and fails on that one, or ends after the last.
proof fn lemma_write(node: Node, places: Seq<Place>, i: int, k: int, steps: nat)
    requires
        0 <= i <= k <= places.len(),
        i < places.len(),
        forall|x: int| 0 <= x < places.len() ==> node.stores(#[trigger] places[x]),
        forall|x: int| 0 <= x < k ==> node.content(#[trigger] places[x]) is Some,
        k < places.len() ==> node.content(places[k]) is None,
        steps >= 2 * (places.len() - i),
    ensures
        download_run(node, writing(places, i), payload_of(places[i]), steps) == (DownloadRun {
            asked: fetches(places, fetched(places, k)).skip(i),
            written: node.contents(places, k).skip(i),
            end: end_of(places, k),
        }),
    decreases places.len() - i,
{
    let n = places.len() as int;
    let s0 = writing(places, i);
    let q0 = payload_of(places[i]);
    let r0 = download_run(node, s0, q0, steps);
    assert(node.stores(places[i]));
    assert(s0.found[s0.left - 1] == places[i]);
    if i == k {
        assert(r0.written =~= node.contents(places, k).skip(i));
        assert(r0.asked =~= fetches(places, fetched(places, k)).skip(i));
    } else {
        assert(node.content(places[i]) is Some);
        let bytes = node.content(places[i]).unwrap();
        let s1 = DownloadView { stage: DownloadStage::Writing, ..s0 };
        let q1 = DownloadRequestView::Write { bytes };
        assert(s0.next(node.answer(q0).unwrap()) == Ok::<
            (DownloadView, DownloadRequestView),
            ErrorView,
        >((s1, q1)));
        let r1 = download_run(node, s1, q1, (steps - 1) as nat);
        assert(r0.written =~= r1.written);
        assert(r0.asked == seq![q0] + r1.asked);
        let (s2, q2) = s1.replay((s1.left - 1) as nat);
        let r2 = download_run(node, s2, q2, (steps - 2) as nat);
        assert(r1.written =~= seq![bytes] + r2.written);
        assert(r1.asked =~= r2.asked);
        if i + 1 < n {
            assert(s2 == writing(places, i + 1));
            assert(q2 == payload_of(places[i + 1]));
            lemma_write(node, places, i + 1, k, (steps - 2) as nat);
        }
        assert(r0.written =~= node.contents(places, k).skip(i));
        assert(r0.asked =~= fetches(places, fetched(places, k)).skip(i));
    }
}

/// The walk back ends at a chunk without a link: once it is looked at, the writing
/// starts with it.
proof fn lemma_turn(node: Node, places: Seq<Place>, steps: nat)
    requires
        node.holds_resource(places),
        steps >= 3,
    ensures
        ({
            let rest = download_run(
                node,
                writing(places, 0),
                payload_of(places[0]),
                (steps - 3) as nat,
            );
            download_run(node, walking(places, 0), DownloadRequestView::Chains, steps) == (
            DownloadRun {
                asked: looks(places[0]) + rest.asked,
                written: rest.written,
                end: rest.end,
            })
        }),
{
    let place = places[0];
    assert(node.lists(place));
    let s0 = walking(places, 0);
    let s1 = DownloadView { stage: DownloadStage::Scoring, ..s0 };
    let q1 = reputation_of(place);
    let s2 = DownloadView { found: s0.found.push(place), stage: DownloadStage::Linking, ..s0 };
    let q2 = payload_of(place);
    let s3 = writing(places, 0);
    assert(s0.found.push(place) =~= walked(places, 0));
    assert(s0.next(node.answer(DownloadRequestView::Chains).unwrap()) == Ok::<
        (DownloadView, DownloadRequestView),
        ErrorView,
    >((s1, q1)));
    assert(s1.next(node.answer(q1).unwrap()) == Ok::<
        (DownloadView, DownloadRequestView),
        ErrorView,
    >((s2, q2)));
    assert(s2.next(node.answer(q2).unwrap()) == Ok::<
        (DownloadView, DownloadRequestView),
        ErrorView,
    >((s3, q2)));
    let r3 = download_run(node, s3, q2, (steps - 3) as nat);
    let r2 = download_run(node, s2, q2, (steps - 2) as nat);
    let r1 = download_run(node, s1, q1, (steps - 1) as nat);
    let r0 = download_run(node, s0, DownloadRequestView::Chains, steps);
    assert(r2.asked == seq![q2] + r3.asked && r2.written =~= r3.written);
    assert(r1.asked == seq![q1] + r2.asked && r1.written =~= r2.written);
    assert(r0.asked == seq![DownloadRequestView::Chains] + r1.asked && r0.written =~= r1.written);
    assert(r0.asked =~= looks(place) + r3.asked);
}

/// Walking down to the first chunk is walking down to the second and then passing
/// the first.
proof fn lemma_walk_asks(places: Seq<Place>, j: int)
    requires
        0 <= j < places.len(),
    ensures
        walk_asks(places, j, 0) == walk_asks(places, j, 1) + looks(places[0]),
    decreases j,
{
    if j > 0 {
        lemma_walk_asks(places, j - 1);
        assert(walk_asks(places, j, 0) =~= walk_asks(places, j, 1) + looks(places[0]));
    } else {
        assert(walk_asks(places, -1, 0) =~= Seq::empty());
        assert(walk_asks(places, 0, 0) =~= walk_asks(places, 0, 1) + looks(places[0]));
    }
}

/// The download of a resource that the node holds asks about each chunk once while
/// it walks back from the last to the first, writing nothing. Then it fetches the
/// chunks once more and writes their bytes, first chunk first, up to the first chunk
/// whose content is no base64. It fails on that chunk, naming it, and is done where
/// there is none.
///
/// `places` are the chunks of the resource, `uri` is the address of the last, and
/// `k` tells how many chunks carry base64 before the first that does not.
pub proof fn lemma_download_resource(
    node: Node,
    places: Seq<Place>,
    uri: Seq<char>,
    k: int,
    steps: nat,
)
    requires
        node.holds_resource(places),
        parse_spec(uri) == Ok::<(Option<Seq<char>>, Seq<char>), Seq<char>>(
            (Some(places.last().0), places.last().1),
        ),
        0 <= k <= places.len(),
        forall|x: int| 0 <= x < k ==> node.content(#[trigger] places[x]) is Some,
        k < places.len() ==> node.content(places[k]) is None,
        steps >= 5 * places.len(),
    ensures
        download(node, uri, steps) == (DownloadRun {
            asked: walk_asks(places, places.len() - 1, 0) + fetches(places, fetched(places, k)),
            written: node.contents(places, k),
            end: end_of(places, k),
        }),
{
    let n = places.len() as int;
    assert(node.lists(places[n - 1]));
    assert(walked(places, n) =~= Seq::empty());
    assert(DownloadView::start(uri) == Ok::<(DownloadView, DownloadRequestView), ErrorView>(
        (walking(places, n - 1), DownloadRequestView::Chains),
    ));
    let left = (steps - 3 * (n - 1)) as nat;
    lemma_walk(node, places, n - 1, steps);
    lemma_turn(node, places, left);
    assert forall|x: int| 0 <= x < places.len() implies node.stores(#[trigger] places[x]) by {
        if x > 0 {
            assert(node.trusts(places[x]) && node.stores(places[x]));
        }
    }
    lemma_write(node, places, 0, k, (left - 3) as nat);
    lemma_walk_asks(places, n - 1);
    let all = fetches(places, fetched(places, k));
    assert(node.contents(places, k).skip(0) =~= node.contents(places, k));
    assert(all.skip(0) =~= all);
    assert(download(node, uri, steps).asked =~= walk_asks(places, n - 1, 0) + all);
}

/// A chunk of too low a reputation stops the download before anything is written,
/// and before that chunk or any chunk before it is fetched: the last thing asked is
/// its reputation, and the download fails with the error that names it.
///
/// `places` are the chunks that the walk back comes by, the one that is not trusted
/// first, and `uri` is the address of the last.
pub proof fn lemma_low_reputation(node: Node, places: Seq<Place>, uri: Seq<char>, steps: nat)
    requires
        node.holds_chain(places),
        !node.trusts(places[0]),
        parse_spec(uri) == Ok::<(Option<Seq<char>>, Seq<char>), Seq<char>>(
            (Some(places.last().0), places.last().1),
        ),
        steps >= 3 * places.len(),
    ensures
        download(node, uri, steps) == (DownloadRun {
            asked: walk_asks(places, places.len() - 1, 1) + seq![
                DownloadRequestView::Chains,
                reputation_of(places[0]),
            ],
            written: Seq::empty(),
            end: DownloadEnd::Failed(ErrorView::LowReputation(places[0].0, places[0].1)),
        }),
{
    let n = places.len() as int;
    assert(node.lists(places[n - 1]));
    assert(walked(places, n) =~= Seq::empty());
    assert(DownloadView::start(uri) == Ok::<(DownloadView, DownloadRequestView), ErrorView>(
        (walking(places, n - 1), DownloadRequestView::Chains),
    ));
    lemma_walk(node, places, n - 1, steps);
    let left = (steps - 3 * (n - 1)) as nat;
    let place = places[0];
    assert(node.lists(place));
    let s0 = walking(places, 0);
    let s1 = DownloadView { stage: DownloadStage::Scoring, ..s0 };
    let q1 = reputation_of(place);
    assert(s0.next(node.answer(DownloadRequestView::Chains).unwrap()) == Ok::<
        (DownloadView, DownloadRequestView),
        ErrorView,
    >((s1, q1)));
    let r1 = download_run(node, s1, q1, (left - 1) as nat);
    let r0 = download_run(node, s0, DownloadRequestView::Chains, left);
    assert(r1.written =~= Seq::<Seq<u8>>::empty());
    assert(r1.asked =~= seq![q1]);
    assert(r0.written =~= r1.written);
    assert(r0.asked =~= seq![DownloadRequestView::Chains, q1]);
}

/// Whether `request` is what a download asks for at the stage that `state` is in.
spec fn fits(state: DownloadView, request: DownloadRequestView) -> bool {
    match (state.stage, request) {
        (DownloadStage::Listing, DownloadRequestView::Chains) => true,
        (DownloadStage::Scoring, DownloadRequestView::Reputation { .. }) => true,
        (DownloadStage::Linking, DownloadRequestView::Payload { .. }) => true,
        (DownloadStage::Fetching, DownloadRequestView::Payload { .. }) => true,
        (DownloadStage::Writing, DownloadRequestView::Write { .. }) => true,
        (DownloadStage::Finished, DownloadRequestView::Done) => true,
        _ => false,
    }
}

/// Whether a download in `state` is still walking back.
spec fn walks(state: DownloadView) -> bool {
    state.stage is Listing || state.stage is Scoring || state.stage is Linking
}

/// Once a download writes out, no reputation stops it any more.
proof fn lemma_trust_behind(
    node: Node,
    state: DownloadView,
    request: DownloadRequestView,
    steps: nat,
)
    requires
        fits(state, request),
        !walks(state),
    ensures
        !(download_run(node, state, request, steps).end matches DownloadEnd::Failed(
            ErrorView::LowReputation(_, _),
        )),
    decreases steps,
{
    if !(request is Done) && steps > 0 {
        match node.answer(request) {
            None => {},
            Some(reply) => {
                match state.next(reply) {
                    Err(_) => {},
                    Ok((state, request)) => {
                        lemma_trust_behind(node, state, request, (steps - 1) as nat);
                    },
                }
            },
        }
    }
}

/// While a download walks back it writes nothing, so one that a reputation stops has
/// written nothing.
proof fn lemma_trust_ahead(
    node: Node,
    state: DownloadView,
    request: DownloadRequestView,
    steps: nat,
)
    requires
        fits(state, request),
        walks(state),
    ensures
        download_run(node, state, request, steps).end matches DownloadEnd::Failed(
            ErrorView::LowReputation(_, _),
        ) ==> download_run(node, state, request, steps).written.len() == 0,
    decreases steps,
{
    if steps > 0 {
        match node.answer(request) {
            None => {},
            Some(reply) => {
                match state.next(reply) {
                    Err(_) => {},
                    Ok((state, request)) => {
                        if walks(state) {
                            lemma_trust_ahead(node, state, request, (steps - 1) as nat);
                        } else {
                            lemma_trust_behind(node, state, request, (steps - 1) as nat);
                        }
                    },
                }
            },
        }
    }
}

/// Whatever the node holds and wherever the download starts: if it fails because a
/// chunk has too low a reputation, it has written nothing.
pub proof fn lemma_trust_before_output(node: Node, uri: Seq<char>, steps: nat)
    ensures
        download(node, uri, steps).end matches DownloadEnd::Failed(
            ErrorView::LowReputation(_, _),
        ) ==> download(node, uri, steps).written.len() == 0,
{
    match DownloadView::start(uri) {
        Err(_) => {},
        Ok((state, request)) => {
            lemma_trust_ahead(node, state, request, steps);
        },
    }
}

/// A download from what is no address of a chunk, or from an address that names no
/// chain, ends with an input error before the node is asked anything.
pub proof fn lemma_nothing_opened(node: Node, uri: Seq<char>, steps: nat)
    requires
        parse_spec(uri) is Err || parse_spec(uri) matches Ok((None, _)),
    ensures
        DownloadView::start(uri) is Err,
        download(node, uri, steps).asked.len() == 0,
        download(node, uri, steps).written.len() == 0,
        download(node, uri, steps).end matches DownloadEnd::Failed(ErrorView::Input(_)),
{
}

} // verus!
