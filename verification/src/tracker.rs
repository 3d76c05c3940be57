//! The announce exchange with a tracker: the request and its query string,
//! and the tracker's answer with its compact peer list.

use crate::bencode::{document_of, Bencode, Node};
use crate::fields::{bytes_of, key_of, length_of, read_length, read_text, required, text_of};
use crate::meta_info::MetaInfo;
use crate::chunks::{divides_evenly, split_chunks};
use crate::peers::{peer_records, PeerAddress, Peers, PEER_WIDTH};
use crate::text::{
    ascii_string, decimal, is_ascii, lemma_decimal_ascii, lemma_percent_encode_ascii,
    percent_encode, push_decimal, push_percent_encoded,
};
use vstd::prelude::*;
use vstd::string::*;
use vstd::utf8::*;

verus! {

/// The port that a client listens on unless it is told otherwise.
pub const DEFAULT_PORT: u16 = 6881;

/// What an announce tells the tracker beyond the counters.
#[derive(Debug, Clone, Copy, PartialEq, Eq, Structural)]
pub enum Event {
    Started,
    Completed,
    Stopped,
}

/// What a client knows of its own session: its peer id, its port, and how
/// much it has moved and has left to fetch.
#[derive(Debug, Clone, Copy, PartialEq, Eq)]
pub struct SessionState {
    pub peer_id: [u8; 20],
    pub port: u16,
    pub uploaded: usize,
    pub downloaded: usize,
    pub left: usize,
}

/// An announce request.
#[derive(Debug, Clone, Copy, PartialEq, Eq)]
pub struct TrackerRequest {
    info_hash: [u8; 20],
    peer_id: [u8; 20],
    port: u16,
    uploaded: usize,
    downloaded: usize,
    left: usize,
    compact: bool,
    event: Option<Event>,
}

/// An announce request, as values.
pub struct TrackerRequestView {
    pub info_hash: Seq<u8>,
    pub peer_id: Seq<u8>,
    pub port: nat,
    pub uploaded: nat,
    pub downloaded: nat,
    pub left: nat,
    pub compact: bool,
    pub event: Option<Event>,
}

/// Why an announce gave no answer.
#[derive(Debug, Clone, Copy, PartialEq, Eq, Structural)]
pub enum AnnounceError {
    /// The tracker could not be reached.
    NetworkError,
    /// The tracker's answer is neither a peer list nor a refusal.
    ProtocolError,
}

/// The tracker's refusal.
#[derive(Debug, Clone, PartialEq, Eq)]
pub struct TrackerFailureResponse {
    pub failure_reason: String,
}

/// The tracker's peer list.
#[derive(Debug, Clone, PartialEq, Eq)]
pub struct TrackerPeerResponse {
    interval: usize,
    peers: Peers,
}

/// The tracker's answer.
#[derive(Debug, Clone, PartialEq, Eq)]
pub enum TrackerResponse {
    Success(TrackerPeerResponse),
    Failure(TrackerFailureResponse),
}

/// The tracker's answer, as values. Each peer stands as its six bytes.
pub enum TrackerResponseView {
    Success { interval: nat, peers: Seq<Seq<u8>> },
    Failure { reason: Seq<char> },
}

/// The announce exchange.
#[derive(Debug, Clone, Copy, PartialEq, Eq)]
pub struct Tracker;

impl Event {
    /// The word that stands for the event in a query string.
    pub open spec fn word(self) -> Seq<u8> {
        match self {
            Event::Started => key_of("started"),
            Event::Completed => key_of("completed"),
            Event::Stopped => key_of("stopped"),
        }
    }
}

impl TrackerRequestView {
    /// The query string of the request: the info-hash and the peer id with
    /// their bytes escaped one by one, the port and the counters in base
    /// ten, `compact` as `1` or `0`, and the event where there is one.
    pub open spec fn query(self) -> Seq<u8> {
        key_of("info_hash=") + percent_encode(self.info_hash) + key_of("&peer_id=")
            + percent_encode(self.peer_id) + key_of("&port=") + decimal(self.port) + key_of(
            "&uploaded=",
        ) + decimal(self.uploaded) + key_of("&downloaded=") + decimal(self.downloaded) + key_of(
            "&left=",
        ) + decimal(self.left) + key_of("&compact=") + if self.compact {
            key_of("1")
        } else {
            key_of("0")
        } + match self.event {
            Some(e) => key_of("&event=") + e.word(),
            None => Seq::empty(),
        }
    }
}

impl View for TrackerRequest {
    type V = TrackerRequestView;

    closed spec fn view(&self) -> TrackerRequestView {
        TrackerRequestView {
            info_hash: self.info_hash@,
            peer_id: self.peer_id@,
            port: self.port as nat,
            uploaded: self.uploaded as nat,
            downloaded: self.downloaded as nat,
            left: self.left as nat,
            compact: self.compact,
            event: self.event,
        }
    }
}

impl View for TrackerPeerResponse {
    type V = TrackerResponseView;

    closed spec fn view(&self) -> TrackerResponseView {
        TrackerResponseView::Success {
            interval: self.interval as nat,
            peers: peer_records(self.peers@),
        }
    }
}

impl View for TrackerResponse {
    type V = TrackerResponseView;

    open spec fn view(&self) -> TrackerResponseView {
        match self {
            TrackerResponse::Success(answer) => answer@,
            TrackerResponse::Failure(refusal) => TrackerResponseView::Failure {
                reason: refusal.failure_reason@,
            },
        }
    }
}

/// Appends the bytes of a text.
pub fn push_text(out: &mut Vec<u8>, text: &str)
    ensures
        final(out)@ == old(out)@ + key_of(text),
{
    let bytes = text.as_bytes();
    let mut i: usize = 0;
    while i < bytes.len()
        invariant
            i <= bytes@.len(),
            bytes@ == key_of(text),
            out@ == old(out)@ + bytes@.take(i as int),
        decreases bytes@.len() - i,
    {
        out.push(bytes[i]);
        i += 1;
        assert(out@ =~= old(out)@ + bytes@.take(i as int));
    }
    assert(bytes@.take(bytes@.len() as int) =~= bytes@);
}

impl SessionState {
    /// A session that has moved nothing yet, on the default port.
    pub fn new(peer_id: [u8; 20], left: usize) -> (r: SessionState)
        ensures
            r == (SessionState { peer_id, port: DEFAULT_PORT, uploaded: 0, downloaded: 0, left }),
    {
        SessionState { peer_id, port: DEFAULT_PORT, uploaded: 0, downloaded: 0, left }
    }
}

impl TrackerRequest {
    /// The request that announces a torrent for a session. It always asks
    /// for the compact peer list, and names no event.
    pub fn new_compact(meta_info: &MetaInfo, session: &SessionState) -> (r: TrackerRequest)
        ensures
            r@ == (TrackerRequestView {
                info_hash: meta_info@.info.fingerprint(),
                peer_id: session.peer_id@,
                port: session.port as nat,
                uploaded: session.uploaded as nat,
                downloaded: session.downloaded as nat,
                left: session.left as nat,
                compact: true,
                event: None,
            }),
    {
        TrackerRequest {
            info_hash: meta_info.info().hash(),
            peer_id: session.peer_id,
            port: session.port,
            uploaded: session.uploaded,
            downloaded: session.downloaded,
            left: session.left,
            compact: true,
            event: None,
        }
    }

    /// The same request, naming an event.
    pub fn with_event(self, event: Event) -> (r: TrackerRequest)
        ensures
            r@ == (TrackerRequestView { event: Some(event), ..self@ }),
    {
        TrackerRequest { event: Some(event), ..self }
    }

    /// The bytes of the query string of the request.
    pub fn query_bytes(&self) -> (r: Vec<u8>)
        ensures
            r@ == self@.query(),
    {
        let mut out: Vec<u8> = Vec::new();
        push_text(&mut out, "info_hash=");
        push_percent_encoded(&mut out, self.info_hash.as_slice());
        push_text(&mut out, "&peer_id=");
        push_percent_encoded(&mut out, self.peer_id.as_slice());
        push_text(&mut out, "&port=");
        push_decimal(&mut out, self.port as u64);
        push_text(&mut out, "&uploaded=");
        push_decimal(&mut out, self.uploaded as u64);
        push_text(&mut out, "&downloaded=");
        push_decimal(&mut out, self.downloaded as u64);
        push_text(&mut out, "&left=");
        push_decimal(&mut out, self.left as u64);
        push_text(&mut out, "&compact=");
        if self.compact {
            push_text(&mut out, "1");
        } else {
            push_text(&mut out, "0");
        }
        match self.event {
            Some(Event::Started) => {
                push_text(&mut out, "&event=");
                push_text(&mut out, "started");
            },
            Some(Event::Completed) => {
                push_text(&mut out, "&event=");
                push_text(&mut out, "completed");
            },
            Some(Event::Stopped) => {
                push_text(&mut out, "&event=");
                push_text(&mut out, "stopped");
            },
            None => {},
        }
        assert(out@ =~= self@.query());
        out
    }
}

/// The words of a query string are ASCII.
pub proof fn lemma_words_ascii()
    ensures
        is_ascii(key_of("info_hash=")),
        is_ascii(key_of("&peer_id=")),
        is_ascii(key_of("&port=")),
        is_ascii(key_of("&uploaded=")),
        is_ascii(key_of("&downloaded=")),
        is_ascii(key_of("&left=")),
        is_ascii(key_of("&compact=")),
        is_ascii(key_of("1")),
        is_ascii(key_of("0")),
        is_ascii(key_of("&event=")),
        is_ascii(key_of("started")),
        is_ascii(key_of("completed")),
        is_ascii(key_of("stopped")),
{
    reveal_strlit("info_hash=");
    reveal_strlit("&peer_id=");
    reveal_strlit("&port=");
    reveal_strlit("&uploaded=");
    reveal_strlit("&downloaded=");
    reveal_strlit("&left=");
    reveal_strlit("&compact=");
    reveal_strlit("1");
    reveal_strlit("0");
    reveal_strlit("&event=");
    reveal_strlit("started");
    reveal_strlit("completed");
    reveal_strlit("stopped");
    is_ascii_spec_bytes("info_hash=");
    is_ascii_spec_bytes("&peer_id=");
    is_ascii_spec_bytes("&port=");
    is_ascii_spec_bytes("&uploaded=");
    is_ascii_spec_bytes("&downloaded=");
    is_ascii_spec_bytes("&left=");
    is_ascii_spec_bytes("&compact=");
    is_ascii_spec_bytes("1");
    is_ascii_spec_bytes("0");
    is_ascii_spec_bytes("&event=");
    is_ascii_spec_bytes("started");
    is_ascii_spec_bytes("completed");
    is_ascii_spec_bytes("stopped");
}

/// A query string is ASCII.
pub proof fn lemma_query_ascii(request: TrackerRequestView)
    ensures
        is_ascii(request.query()),
{
    lemma_words_ascii();
    lemma_percent_encode_ascii(request.info_hash);
    lemma_percent_encode_ascii(request.peer_id);
    lemma_decimal_ascii(request.port);
    lemma_decimal_ascii(request.uploaded);
    lemma_decimal_ascii(request.downloaded);
    lemma_decimal_ascii(request.left);
}

impl TrackerRequest {
    /// The query string of the request.
    pub fn query(&self) -> (r: String)
        ensures
            encode_utf8(r@) == self@.query(),
    {
        let bytes = self.query_bytes();
        proof {
            lemma_query_ascii(self@);
        }
        ascii_string(bytes)
    }
}

impl TrackerResponse {
    /// The answer that a document gives. With a `failure reason` it is a
    /// refusal, whatever else it holds; without one it must have an
    /// `interval` and a compact peer list under `peers`.
    pub open spec fn decode_spec(node: Node) -> Result<TrackerResponseView, AnnounceError> {
        match node.get(key_of("failure reason")) {
            Some(reason) => match text_of(reason) {
                Some(text) => Ok(TrackerResponseView::Failure { reason: text }),
                None => Err(AnnounceError::ProtocolError),
            },
            None => match (
                required(node.get(key_of("interval")), |n: Node| length_of(n)),
                required(node.get(key_of("peers")), |n: Node| bytes_of(n)),
            ) {
                (Some(interval), Some(bytes)) => if divides_evenly(
                    bytes.len(),
                    PEER_WIDTH as nat,
                ) {
                    Ok(
                        TrackerResponseView::Success {
                            interval,
                            peers: split_chunks(bytes, PEER_WIDTH as nat),
                        },
                    )
                } else {
                    Err(AnnounceError::ProtocolError)
                },
                _ => Err(AnnounceError::ProtocolError),
            },
        }
    }
}

impl TrackerPeerResponse {
    /// The peers, in the order of the tracker's list.
    pub fn peers(&self) -> (r: &Vec<PeerAddress>)
        ensures
            self@ matches TrackerResponseView::Success { peers, .. } && peers == peer_records(r@),
    {
        &self.peers.0
    }

    /// The seconds to wait between regular announces.
    pub fn interval(&self) -> (r: usize)
        ensures
            self@ matches TrackerResponseView::Success { interval, .. } && interval == r,
    {
        self.interval
    }
}

impl TrackerResponse {
    /// Reads the tracker's answer from a document.
    pub fn from_document(doc: &Bencode) -> (r: Result<TrackerResponse, AnnounceError>)
        ensures
            match r {
                Ok(answer) => TrackerResponse::decode_spec(doc@) == Ok::<
                    TrackerResponseView,
                    AnnounceError,
                >(answer@),
                Err(e) => TrackerResponse::decode_spec(doc@) == Err::<
                    TrackerResponseView,
                    AnnounceError,
                >(e),
            },
    {
        match doc.get("failure reason") {
            Some(reason) => match read_text(reason) {
                Some(text) => Ok(
                    TrackerResponse::Failure(TrackerFailureResponse { failure_reason: text }),
                ),
                None => Err(AnnounceError::ProtocolError),
            },
            None => {
                let interval = match doc.get("interval") {
                    Some(n) => read_length(n),
                    None => None,
                };
                let bytes = match doc.get("peers") {
                    Some(n) => n.as_bytes(),
                    None => None,
                };
                match (interval, bytes) {
                    (Some(interval), Some(bytes)) => match Peers::from_bytes(bytes.as_slice()) {
                        Ok(peers) => Ok(
                            TrackerResponse::Success(TrackerPeerResponse { interval, peers }),
                        ),
                        Err(_) => Err(AnnounceError::ProtocolError),
                    },
                    _ => Err(AnnounceError::ProtocolError),
                }
            },
        }
    }

    /// The answer that the bytes of a tracker's reply give.
    pub open spec fn decode_bytes_spec(body: Seq<u8>) -> Result<
        TrackerResponseView,
        AnnounceError,
    > {
        match document_of(body) {
            Some(node) => TrackerResponse::decode_spec(node),
            None => Err(AnnounceError::ProtocolError),
        }
    }

    /// Reads the tracker's answer from the bytes of its reply.
    pub fn decode(body: &[u8]) -> (r: Result<TrackerResponse, AnnounceError>)
        ensures
            match r {
                Ok(answer) => TrackerResponse::decode_bytes_spec(body@) == Ok::<
                    TrackerResponseView,
                    AnnounceError,
                >(answer@),
                Err(e) => TrackerResponse::decode_bytes_spec(body@) == Err::<
                    TrackerResponseView,
                    AnnounceError,
                >(e),
            },
    {
        match Bencode::from_bytes(body) {
            Some(doc) => TrackerResponse::from_document(&doc),
            None => Err(AnnounceError::ProtocolError),
        }
    }
}

impl Tracker {
    /// The query string that announces a torrent for a session.
    pub fn announce_query(torrent: &MetaInfo, session: &SessionState) -> (r: String)
        ensures
            encode_utf8(r@) == (TrackerRequestView {
                info_hash: torrent@.info.fingerprint(),
                peer_id: session.peer_id@,
                port: session.port as nat,
                uploaded: session.uploaded as nat,
                downloaded: session.downloaded as nat,
                left: session.left as nat,
                compact: true,
                event: None,
            }).query(),
    {
        TrackerRequest::new_compact(torrent, session).query()
    }

    /// What an announce comes to, from what the transport brought back: the
    /// body of the tracker's reply, or nothing where the tracker could not
    /// be reached. A refusal is an answer, not an error.
    pub fn answer(reply: Option<&[u8]>) -> (r: Result<TrackerResponse, AnnounceError>)
        ensures
            match reply {
                None => r == Err::<TrackerResponse, AnnounceError>(AnnounceError::NetworkError),
                Some(body) => match r {
                    Ok(answer) => TrackerResponse::decode_bytes_spec(body@) == Ok::<
                        TrackerResponseView,
                        AnnounceError,
                    >(answer@),
                    Err(e) => TrackerResponse::decode_bytes_spec(body@) == Err::<
                        TrackerResponseView,
                        AnnounceError,
                    >(e),
                },
            },
    {
        match reply {
            Some(body) => TrackerResponse::decode(body),
            None => Err(AnnounceError::NetworkError),
        }
    }
}

/// Calls `rand::thread_rng` and `Rng::gen` for twenty bytes. Nothing is
/// claimed of them: each call may give other bytes.
#[verifier::external_body]
pub fn random_peer_id() -> [u8; 20] {
    rand::Rng::gen(&mut rand::thread_rng())
}

} // verus!
