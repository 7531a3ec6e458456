use seresa::chunk::{Chunk, CHUNK_SIZE};
use seresa::download::{content_of, DownloadReply, DownloadRequest, DownloadStage};
use seresa::resource::{download_resource, upload_resource};
use seresa::upload::{UploadReply, UploadRequest, UploadStage};
use seresa::Error;
use std::collections::HashMap;

/// A node that lives in memory.
struct Node {
    chains: Vec<String>,
    chunks: HashMap<(String, String), Chunk>,
    reputation: HashMap<(String, String), isize>,
    posted: usize,
}

impl Node {
    fn new(chains: &[&str]) -> Node {
        Node {
            chains: chains.iter().map(|c| c.to_string()).collect(),
            chunks: HashMap::new(),
            reputation: HashMap::new(),
            posted: 0,
        }
    }

    fn post(&mut self, chain: &str, chunk: Chunk) -> String {
        self.posted += 1;
        let hash = format!("{}_H{}", self.posted, self.posted);
        self.put(chain, &hash, chunk);
        hash
    }

    fn put(&mut self, chain: &str, hash: &str, chunk: Chunk) {
        self.chunks.insert((chain.to_string(), hash.to_string()), chunk);
    }

    fn rate(&mut self, chain: &str, hash: &str, score: isize) {
        self.reputation.insert((chain.to_string(), hash.to_string()), score);
    }
}

/// Runs an upload of `source`, handing it at most `step` bytes at a time.
fn upload(node: &mut Node, chain: &str, title: &str, source: &[u8], step: usize) -> Vec<String> {
    let (mut state, mut request) = upload_resource(title);
    let mut hashes = Vec::new();
    let mut at = 0;
    loop {
        let reply = match request {
            UploadRequest::Read { limit } => {
                assert!(limit > 0 && limit <= CHUNK_SIZE);
                let n = limit.min(step).min(source.len() - at);
                let bytes = source[at..at + n].to_vec();
                at += n;
                UploadReply::Read { bytes }
            }
            UploadRequest::Post { chunk } => {
                let hash = node.post(chain, chunk);
                hashes.push(hash.clone());
                UploadReply::Posted { hash }
            }
            UploadRequest::Done => break,
        };
        assert!(state.accepts(&reply));
        let next = state.advance(reply);
        state = next.0;
        request = next.1;
    }
    assert!(matches!(state.stage(), UploadStage::Finished));
    assert_eq!(at, source.len());
    hashes
}

/// What a download did.
struct Run {
    output: Vec<u8>,
    writes: usize,
    asked: Vec<String>,
    end: Result<(), Error>,
}

/// Runs the download from `uri`.
fn download(node: &Node, uri: &str) -> Run {
    let mut run = Run { output: Vec::new(), writes: 0, asked: Vec::new(), end: Ok(()) };
    let (mut state, mut request) = match download_resource(uri) {
        Ok(opened) => opened,
        Err(e) => {
            run.end = Err(e);
            return run;
        }
    };
    loop {
        let reply = match request {
            DownloadRequest::Chains => {
                run.asked.push(String::from("chains"));
                DownloadReply::Chains { names: node.chains.clone() }
            }
            DownloadRequest::Reputation { chain, post } => {
                run.asked.push(format!("reps {} {}", chain, post));
                let score = node.reputation.get(&(chain, post)).copied().unwrap_or(0);
                DownloadReply::Reputation { score }
            }
            DownloadRequest::Payload { chain, post } => {
                run.asked.push(format!("payload {} {}", chain, post));
                let chunk = node.chunks.get(&(chain, post)).expect("no such post").clone();
                DownloadReply::Chunk { chunk }
            }
            DownloadRequest::Write { bytes } => {
                run.writes += 1;
                run.output.extend_from_slice(&bytes);
                DownloadReply::Written
            }
            DownloadRequest::Done => {
                assert!(matches!(state.stage(), DownloadStage::Finished));
                return run;
            }
        };
        assert!(state.accepts(&reply));
        match state.advance(reply) {
            Ok(next) => {
                state = next.0;
                request = next.1;
            }
            Err(e) => {
                run.end = Err(e);
                return run;
            }
        }
    }
}

fn sample(len: usize) -> Vec<u8> {
    (0..len).map(|i| ((i * 31 + i / 251) % 256) as u8).collect()
}

fn chunk(content: &str, prev: Option<&str>) -> Chunk {
    Chunk {
        title: String::from("t"),
        content: String::from(content),
        prev: prev.map(String::from),
    }
}

fn round_trip(len: usize, step: usize) -> usize {
    let source = sample(len);
    let mut node = Node::new(&["#other", "#papers"]);
    let hashes = upload(&mut node, "#papers", "a title", &source, step);
    let uri = format!("fchs:#papers:{}", hashes.last().unwrap());
    let run = download(&node, &uri);
    assert!(run.end.is_ok(), "{:?}", run.end);
    assert_eq!(run.output, source);
    assert_eq!(run.writes, hashes.len());
    hashes.len()
}

#[test]
fn chunk_size_is_eighty_kibibytes() {
    assert_eq!(CHUNK_SIZE, 81920);
}

#[test]
fn round_trip_of_nothing() {
    assert_eq!(round_trip(0, 4096), 1);
}

#[test]
fn round_trip_of_one_byte_less_than_a_chunk() {
    assert_eq!(round_trip(CHUNK_SIZE - 1, usize::MAX), 1);
}

#[test]
fn round_trip_of_one_chunk() {
    assert_eq!(round_trip(CHUNK_SIZE, usize::MAX), 2);
}

#[test]
fn round_trip_of_one_byte_more_than_a_chunk() {
    assert_eq!(round_trip(CHUNK_SIZE + 1, usize::MAX), 2);
}

#[test]
fn round_trip_of_three_chunks() {
    assert_eq!(round_trip(3 * CHUNK_SIZE, usize::MAX), 4);
}

#[test]
fn round_trip_with_short_reads() {
    assert_eq!(round_trip(2 * CHUNK_SIZE + 5, 1000), 3);
    assert_eq!(round_trip(CHUNK_SIZE, 8191), 2);
    assert_eq!(round_trip(300, 1), 1);
}

#[test]
fn count_is_length_over_chunk_size_rounded_up_off_the_boundary() {
    for len in [1, 2, CHUNK_SIZE - 1, CHUNK_SIZE + 1, 2 * CHUNK_SIZE + 77, 200 * 1024] {
        let mut node = Node::new(&["#c"]);
        let hashes = upload(&mut node, "#c", "t", &sample(len), 50_000);
        assert_eq!(hashes.len(), (len + CHUNK_SIZE - 1) / CHUNK_SIZE);
    }
}

#[test]
fn count_is_one_more_on_the_boundary() {
    for len in [0, CHUNK_SIZE, 2 * CHUNK_SIZE] {
        let mut node = Node::new(&["#c"]);
        let hashes = upload(&mut node, "#c", "t", &sample(len), 50_000);
        assert_eq!(hashes.len(), len / CHUNK_SIZE + 1);
        let last = &node.chunks[&(String::from("#c"), hashes.last().unwrap().clone())];
        assert_eq!(last.content, "");
    }
}

#[test]
fn two_hundred_kibibytes_make_three_linked_chunks() {
    let source = sample(200 * 1024);
    let mut node = Node::new(&["#papers"]);
    let hashes = upload(&mut node, "#papers", "paper", &source, 65_536);
    assert_eq!(hashes, ["1_H1", "2_H2", "3_H3"]);

    let at = |hash: &str| &node.chunks[&(String::from("#papers"), String::from(hash))];
    assert_eq!(at("1_H1").prev, None);
    assert_eq!(at("2_H2").prev, Some(String::from("fchs:1_H1")));
    assert_eq!(at("3_H3").prev, Some(String::from("fchs:2_H2")));
    assert_eq!(at("1_H1").title, "paper");
    assert_eq!(at("2_H2").title, "paper");
    assert_eq!(at("3_H3").title, "paper");
    assert_eq!(at("1_H1").content, base64::encode(&source[..CHUNK_SIZE]));
    assert_eq!(at("2_H2").content, base64::encode(&source[CHUNK_SIZE..2 * CHUNK_SIZE]));
    assert_eq!(at("3_H3").content, base64::encode(&source[2 * CHUNK_SIZE..]));
    assert_eq!(source.len() - 2 * CHUNK_SIZE, 40 * 1024);

    let run = download(&node, "fchs:#papers:3_H3");
    assert!(run.end.is_ok());
    assert_eq!(run.output, source);
    assert_eq!(
        run.asked,
        [
            "chains",
            "reps #papers 3_H3",
            "payload #papers 3_H3",
            "chains",
            "reps #papers 2_H2",
            "payload #papers 2_H2",
            "chains",
            "reps #papers 1_H1",
            "payload #papers 1_H1",
            "payload #papers 1_H1",
            "payload #papers 2_H2",
            "payload #papers 3_H3",
        ]
    );
}

#[test]
fn content_is_base64_of_the_bytes() {
    let mut node = Node::new(&["#c"]);
    let hashes = upload(&mut node, "#c", "greeting", b"hello world", 4);
    assert_eq!(hashes.len(), 1);
    let stored = &node.chunks[&(String::from("#c"), hashes[0].clone())];
    assert_eq!(stored.content, "aGVsbG8gd29ybGQ=");
    assert_eq!(stored.title, "greeting");
    assert_eq!(stored.prev, None);
}

#[test]
fn first_request_is_to_read_a_whole_chunk() {
    let (state, request) = upload_resource("t");
    assert!(matches!(request, UploadRequest::Read { limit } if limit == CHUNK_SIZE));
    assert!(matches!(state.stage(), UploadStage::Reading));
    assert!(matches!(state.request(), UploadRequest::Read { limit } if limit == CHUNK_SIZE));
}

#[test]
fn reads_fill_the_chunk_in_hand() {
    let (state, _) = upload_resource("t");
    let (state, request) = state.advance(UploadReply::Read { bytes: vec![7; 20_000] });
    assert!(matches!(request, UploadRequest::Read { limit } if limit == CHUNK_SIZE - 20_000));
    let (state, request) = state.advance(UploadReply::Read { bytes: vec![8; CHUNK_SIZE - 20_000] });
    assert!(matches!(state.stage(), UploadStage::Posting { last: false }));
    let mut whole = vec![7u8; 20_000];
    whole.extend_from_slice(&vec![8u8; CHUNK_SIZE - 20_000]);
    match request {
        UploadRequest::Post { chunk } => {
            assert_eq!(chunk.content, base64::encode(&whole));
            assert_eq!(chunk.prev, None);
        }
        other => panic!("expected a post, got {:?}", other),
    }
    let (state, request) = state.advance(UploadReply::Posted { hash: String::from("1_AA") });
    assert!(matches!(request, UploadRequest::Read { limit } if limit == CHUNK_SIZE));
    let (state, request) = state.advance(UploadReply::Read { bytes: Vec::new() });
    assert!(matches!(state.stage(), UploadStage::Posting { last: true }));
    match request {
        UploadRequest::Post { chunk } => {
            assert_eq!(chunk.content, "");
            assert_eq!(chunk.prev, Some(String::from("fchs:1_AA")));
        }
        other => panic!("expected a post, got {:?}", other),
    }
    let (state, request) = state.advance(UploadReply::Posted { hash: String::from("2_BB") });
    assert!(matches!(request, UploadRequest::Done));
    assert!(matches!(state.stage(), UploadStage::Finished));
}

#[test]
fn upload_accepts_only_the_answer_to_its_request() {
    let (state, _) = upload_resource("t");
    assert!(state.accepts(&UploadReply::Read { bytes: vec![0; CHUNK_SIZE] }));
    assert!(state.accepts(&UploadReply::Read { bytes: Vec::new() }));
    assert!(!state.accepts(&UploadReply::Read { bytes: vec![0; CHUNK_SIZE + 1] }));
    assert!(!state.accepts(&UploadReply::Posted { hash: String::from("1_AA") }));

    let (state, _) = state.advance(UploadReply::Read { bytes: vec![0; 10] });
    assert!(state.accepts(&UploadReply::Read { bytes: vec![0; CHUNK_SIZE - 10] }));
    assert!(!state.accepts(&UploadReply::Read { bytes: vec![0; CHUNK_SIZE - 9] }));

    let (state, _) = state.advance(UploadReply::Read { bytes: Vec::new() });
    assert!(state.accepts(&UploadReply::Posted { hash: String::from("1_AA") }));
    assert!(!state.accepts(&UploadReply::Read { bytes: Vec::new() }));

    let (state, _) = state.advance(UploadReply::Posted { hash: String::from("1_AA") });
    assert!(!state.accepts(&UploadReply::Posted { hash: String::from("2_BB") }));
    assert!(!state.accepts(&UploadReply::Read { bytes: Vec::new() }));
}

#[test]
fn chunk_is_made_of_its_parts() {
    let prev = String::from("fchs:1_AA");
    let made = Chunk::new("title", String::from("Zm9v"), Some(&prev));
    assert_eq!(made.title, "title");
    assert_eq!(made.content, "Zm9v");
    assert_eq!(made.prev, Some(prev));
    let first = Chunk::new("title", String::new(), None);
    assert_eq!(first.prev, None);
}

#[test]
fn low_reputation_stops_before_anything_is_fetched_or_written() {
    let source = sample(3 * CHUNK_SIZE + 10);
    let mut node = Node::new(&["#papers"]);
    let hashes = upload(&mut node, "#papers", "paper", &source, usize::MAX);
    assert_eq!(hashes.len(), 4);
    node.rate("#papers", &hashes[1], -4);

    let run = download(&node, &format!("fchs:#papers:{}", hashes[3]));
    match run.end {
        Err(Error::LowReputationError(chain, post)) => {
            assert_eq!(chain, "#papers");
            assert_eq!(post, hashes[1]);
        }
        other => panic!("expected a low reputation error, got {:?}", other),
    }
    assert!(run.output.is_empty());
    assert_eq!(run.writes, 0);
    assert_eq!(
        run.asked,
        [
            "chains",
            "reps #papers 4_H4",
            "payload #papers 4_H4",
            "chains",
            "reps #papers 3_H3",
            "payload #papers 3_H3",
            "chains",
            "reps #papers 2_H2",
        ]
    );
}

#[test]
fn low_reputation_of_the_chunk_asked_for() {
    let mut node = Node::new(&["#papers"]);
    let hashes = upload(&mut node, "#papers", "paper", b"abc", usize::MAX);
    node.rate("#papers", &hashes[0], -4);
    let run = download(&node, "fchs:#papers:1_H1");
    assert!(matches!(run.end, Err(Error::LowReputationError(_, _))));
    assert_eq!(run.asked, ["chains", "reps #papers 1_H1"]);
    assert_eq!(run.writes, 0);
}

#[test]
fn reputation_of_minus_three_passes() {
    let mut node = Node::new(&["#papers"]);
    let hashes = upload(&mut node, "#papers", "paper", b"abc", usize::MAX);
    node.rate("#papers", &hashes[0], -3);
    let run = download(&node, "fchs:#papers:1_H1");
    assert!(run.end.is_ok());
    assert_eq!(run.output, b"abc");
}

#[test]
fn corrupt_content_fails_after_the_chunks_before_it_are_written() {
    let mut node = Node::new(&["#c"]);
    node.put("#c", "1_A", chunk("Zmlyc3Qg", None));
    node.put("#c", "2_B", chunk("not base64!", Some("fchs:1_A")));
    node.put("#c", "3_C", chunk("dGhpcmQ=", Some("fchs:2_B")));

    let run = download(&node, "fchs:#c:3_C");
    match run.end {
        Err(Error::InvalidContentError(chain, post)) => {
            assert_eq!(chain, "#c");
            assert_eq!(post, "2_B");
        }
        other => panic!("expected an invalid content error, got {:?}", other),
    }
    assert_eq!(run.output, b"first ");
    assert_eq!(run.writes, 1);
}

#[test]
fn content_is_decoded_from_base64() {
    let mut node = Node::new(&["#c"]);
    node.put("#c", "1_A", chunk("aGVsbG8g", None));
    node.put("#c", "2_B", chunk("d29ybGQ=", Some("fchs:1_A")));
    let run = download(&node, "fchs:#c:2_B");
    assert!(run.end.is_ok());
    assert_eq!(run.output, b"hello world");
    assert_eq!(run.writes, 2);
}

#[test]
fn content_or_the_error_that_names_the_chunk() {
    assert_eq!(content_of(Some(vec![1, 2, 3]), "#c", "1_A").unwrap(), [1, 2, 3]);
    assert_eq!(content_of(Some(Vec::new()), "#c", "1_A").unwrap(), [0u8; 0]);
    match content_of(None, "#c", "1_A") {
        Err(Error::InvalidContentError(chain, post)) => {
            assert_eq!(chain, "#c");
            assert_eq!(post, "1_A");
        }
        other => panic!("expected an invalid content error, got {:?}", other),
    }
}

#[test]
fn links_are_followed_across_chains() {
    let mut node = Node::new(&["#a", "#b"]);
    node.put("#a", "1_Z", chunk("eg==", None));
    node.put("#a", "2_Y", chunk("eQ==", Some("fchs:1_Z")));
    node.put("#b", "3_X", chunk("eA==", Some("fchs:#a:2_Y")));
    node.put("#b", "1_Z", chunk("bm8=", None));

    let run = download(&node, "fchs:#b:3_X");
    assert!(run.end.is_ok(), "{:?}", run.end);
    assert_eq!(run.output, b"zyx");
    assert_eq!(
        run.asked,
        [
            "chains",
            "reps #b 3_X",
            "payload #b 3_X",
            "chains",
            "reps #a 2_Y",
            "payload #a 2_Y",
            "chains",
            "reps #a 1_Z",
            "payload #a 1_Z",
            "payload #a 1_Z",
            "payload #a 2_Y",
            "payload #b 3_X",
        ]
    );
}

#[test]
fn chain_not_on_the_node() {
    let mut node = Node::new(&["#a"]);
    node.put("#b", "1_A", chunk("", None));
    let run = download(&node, "fchs:#b:1_A");
    match run.end {
        Err(Error::InputError(why)) => {
            assert_eq!(why, "invalid 'fchs' URI, chain \"#b\" not on Freechains node")
        }
        other => panic!("expected an input error, got {:?}", other),
    }
    assert_eq!(run.asked, ["chains"]);
}

#[test]
fn link_to_a_chain_not_on_the_node() {
    let mut node = Node::new(&["#a"]);
    node.put("#a", "2_B", chunk("eA==", Some("fchs:#gone:1_A")));
    let run = download(&node, "fchs:#a:2_B");
    assert!(matches!(run.end, Err(Error::InputError(_))));
    assert_eq!(run.asked, ["chains", "reps #a 2_B", "payload #a 2_B", "chains"]);
    assert_eq!(run.writes, 0);
}

#[test]
fn broken_link_ends_the_download() {
    let mut node = Node::new(&["#a"]);
    node.put("#a", "2_B", chunk("eA==", Some("1_A")));
    let run = download(&node, "fchs:#a:2_B");
    match run.end {
        Err(Error::InputError(why)) => assert_eq!(why, "no scheme specified on URI"),
        other => panic!("expected an input error, got {:?}", other),
    }
    assert_eq!(run.writes, 0);
}

#[test]
fn link_to_a_name_that_is_no_chain() {
    let mut node = Node::new(&["#a"]);
    node.put("#a", "2_B", chunk("eA==", Some("fchs:nochain:1_A")));
    let run = download(&node, "fchs:#a:2_B");
    match run.end {
        Err(Error::InputError(why)) => assert_eq!(
            why,
            "invalid 'fchs' URI format, invalid chain name \"chain name must start with '$', '@' or '#'\""
        ),
        other => panic!("expected an input error, got {:?}", other),
    }
    assert_eq!(run.asked, ["chains", "reps #a 2_B", "payload #a 2_B"]);
}

#[test]
fn malformed_uri_opens_no_download() {
    let node = Node::new(&["#a"]);
    for (uri, why) in [
        ("fchs", "no scheme specified on URI"),
        ("http:#a:1_A", "invalid URI scheme"),
        ("fchs::1_A", "invalid 'fchs' URI format, missing chain name"),
        ("fchs:1_A", "missing chains name on URI"),
        (
            "fchs:a:1_A",
            "invalid 'fchs' URI format, invalid chain name \"chain name must start with '$', '@' or '#'\"",
        ),
    ] {
        match download_resource(uri) {
            Err(Error::InputError(text)) => assert_eq!(text, why),
            Err(other) => panic!("expected an input error, got {:?}", other),
            Ok(_) => panic!("{} opened a download", uri),
        }
        let run = download(&node, uri);
        assert!(run.asked.is_empty());
        assert_eq!(run.writes, 0);
    }
}

#[test]
fn download_opens_by_asking_for_the_chains() {
    let (state, request) = download_resource("fchs:#a:1_A").unwrap();
    assert!(matches!(request, DownloadRequest::Chains));
    assert!(matches!(state.stage(), DownloadStage::Listing));
}

#[test]
fn download_accepts_only_the_answer_to_its_request() {
    let (state, _) = download_resource("fchs:#a:1_A").unwrap();
    assert!(state.accepts(&DownloadReply::Chains { names: Vec::new() }));
    assert!(!state.accepts(&DownloadReply::Reputation { score: 0 }));
    assert!(!state.accepts(&DownloadReply::Chunk { chunk: chunk("", None) }));
    assert!(!state.accepts(&DownloadReply::Written));

    let (state, request) =
        state.advance(DownloadReply::Chains { names: vec![String::from("#a")] }).unwrap();
    assert!(matches!(request, DownloadRequest::Reputation { .. }));
    assert!(state.accepts(&DownloadReply::Reputation { score: 0 }));
    assert!(!state.accepts(&DownloadReply::Chains { names: Vec::new() }));

    let (state, request) = state.advance(DownloadReply::Reputation { score: 5 }).unwrap();
    assert!(matches!(state.stage(), DownloadStage::Linking));
    match request {
        DownloadRequest::Payload { chain, post } => {
            assert_eq!(chain, "#a");
            assert_eq!(post, "1_A");
        }
        other => panic!("expected a payload request, got {:?}", other),
    }
    assert!(state.accepts(&DownloadReply::Chunk { chunk: chunk("", None) }));
    assert!(!state.accepts(&DownloadReply::Written));

    let (state, request) =
        state.advance(DownloadReply::Chunk { chunk: chunk("QQ==", None) }).unwrap();
    assert!(matches!(state.stage(), DownloadStage::Fetching));
    assert!(matches!(request, DownloadRequest::Payload { .. }));
    assert!(state.accepts(&DownloadReply::Chunk { chunk: chunk("", None) }));
    assert!(!state.accepts(&DownloadReply::Reputation { score: 0 }));

    let (state, request) =
        state.advance(DownloadReply::Chunk { chunk: chunk("QQ==", None) }).unwrap();
    assert!(matches!(state.stage(), DownloadStage::Writing));
    match request {
        DownloadRequest::Write { bytes } => assert_eq!(bytes, b"A"),
        other => panic!("expected a write, got {:?}", other),
    }
    assert!(state.accepts(&DownloadReply::Written));
    assert!(!state.accepts(&DownloadReply::Chunk { chunk: chunk("", None) }));

    let (state, request) = state.advance(DownloadReply::Written).unwrap();
    assert!(matches!(request, DownloadRequest::Done));
    assert!(matches!(state.stage(), DownloadStage::Finished));
    assert!(!state.accepts(&DownloadReply::Written));
}
