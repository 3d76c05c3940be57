use torrent::bencode::Bencode;
use torrent::chunks::WidthError;
use torrent::meta_info::MetaInfo;
use torrent::peers::{PeerAddress, Peers, PeersVisitor};
use torrent::tracker::{
    random_peer_id, AnnounceError, Event, SessionState, Tracker, TrackerFailureResponse,
    TrackerRequest, TrackerResponse,
};

fn dict(entries: Vec<(&str, Bencode)>) -> Bencode {
    Bencode::Dict(entries.into_iter().map(|(k, v)| (k.as_bytes().to_vec(), v)).collect())
}

fn torrent() -> MetaInfo {
    let mut doc = b"d8:announce18:http://tracker/ann4:infod6:lengthi4e4:name5:a.txt12:piece lengthi4e6:pieces20:".to_vec();
    doc.extend_from_slice(&[0u8; 20]);
    doc.extend_from_slice(b"ee");
    MetaInfo::decode(&doc).unwrap()
}

#[test]
fn a_compact_peer_is_six_bytes() {
    let bytes = [192, 168, 1, 1, 0x1A, 0xE1];
    let peers = Peers::from_bytes(&bytes).unwrap();
    assert_eq!(peers, Peers(vec![PeerAddress { ip: [192, 168, 1, 1], port: 6881 }]));
    assert_eq!(peers.to_bytes(), bytes.to_vec());
    assert_eq!(PeerAddress::from_bytes(&bytes), PeerAddress { ip: [192, 168, 1, 1], port: 6881 });
}

#[test]
fn peers_keep_their_order() {
    let bytes = [10, 0, 0, 1, 0, 80, 10, 0, 0, 2, 255, 255, 127, 0, 0, 1, 1, 0];
    let peers = PeersVisitor.visit_bytes(&bytes).unwrap();
    assert_eq!(
        peers.0,
        vec![
            PeerAddress { ip: [10, 0, 0, 1], port: 80 },
            PeerAddress { ip: [10, 0, 0, 2], port: 65535 },
            PeerAddress { ip: [127, 0, 0, 1], port: 256 },
        ]
    );
    assert_eq!(peers.to_bytes(), bytes.to_vec());
    assert_eq!(Peers::from_bytes(&peers.to_bytes()), Ok(peers));
    assert_eq!(Peers::from_bytes(&[]), Ok(Peers(vec![])));
}

#[test]
fn a_peer_list_of_the_wrong_length_is_refused() {
    assert_eq!(Peers::from_bytes(&[0u8; 5]), Err(WidthError { len: 5, width: 6 }));
    assert_eq!(Peers::from_bytes(&[0u8; 7]), Err(WidthError { len: 7, width: 6 }));
    assert_eq!(PeersVisitor.visit_bytes(&[0u8; 13]), Err(WidthError { len: 13, width: 6 }));
}

#[test]
fn a_refusal_is_an_answer() {
    let answer = TrackerResponse::decode(b"d14:failure reason17:torrent not founde");
    assert_eq!(
        answer,
        Ok(TrackerResponse::Failure(TrackerFailureResponse {
            failure_reason: "torrent not found".to_string()
        }))
    );
    assert_eq!(Tracker::answer(Some(b"d14:failure reason17:torrent not founde")), answer);
    let both = dict(vec![
        ("failure reason", Bencode::Bytes(b"no".to_vec())),
        ("interval", Bencode::Int(1)),
        ("peers", Bencode::Bytes(vec![])),
    ]);
    assert!(matches!(TrackerResponse::from_document(&both), Ok(TrackerResponse::Failure(_))));
}

#[test]
fn a_peer_list_is_an_answer() {
    let mut body = b"d8:intervali1800e5:peers12:".to_vec();
    body.extend_from_slice(&[192, 168, 1, 1, 0x1A, 0xE1, 10, 0, 0, 7, 0x1A, 0xE9]);
    body.push(b'e');
    match TrackerResponse::decode(&body).unwrap() {
        TrackerResponse::Success(answer) => {
            assert_eq!(answer.interval(), 1800);
            assert_eq!(
                answer.peers(),
                &vec![
                    PeerAddress { ip: [192, 168, 1, 1], port: 6881 },
                    PeerAddress { ip: [10, 0, 0, 7], port: 6889 },
                ]
            );
        }
        TrackerResponse::Failure(_) => panic!("expected peers"),
    }
}

#[test]
fn an_answer_of_the_wrong_shape_is_a_protocol_error() {
    let bad = Err(AnnounceError::ProtocolError);
    assert_eq!(TrackerResponse::decode(b"not bencode"), bad);
    assert_eq!(TrackerResponse::decode(b"de"), bad);
    assert_eq!(TrackerResponse::decode(b"i1e"), bad);
    assert_eq!(TrackerResponse::decode(b"d8:intervali1800ee"), bad);
    assert_eq!(TrackerResponse::decode(b"d5:peers0:e"), bad);
    assert_eq!(TrackerResponse::decode(b"d8:intervali1800e5:peers5:abcdee"), bad);
    assert_eq!(TrackerResponse::decode(b"d8:intervali-1e5:peers0:e"), bad);
    assert_eq!(TrackerResponse::decode(b"d8:interval2:605:peers0:e"), bad);
    assert_eq!(TrackerResponse::decode(b"d8:intervali60e5:peersi0ee"), bad);
    assert_eq!(TrackerResponse::decode(b"d14:failure reasoni1ee"), bad);
    let not_text = dict(vec![("failure reason", Bencode::Bytes(vec![0xff]))]);
    assert_eq!(TrackerResponse::from_document(&not_text), bad);
}

#[test]
fn an_unreachable_tracker_is_a_network_error() {
    assert_eq!(Tracker::answer(None), Err(AnnounceError::NetworkError));
    assert_eq!(Tracker::answer(Some(b"x")), Err(AnnounceError::ProtocolError));
}

#[test]
fn a_request_carries_the_info_hash_and_the_session() {
    let torrent = torrent();
    let mut session = SessionState::new(*b"-XX0001-abcdefghijkl", 4);
    assert_eq!(session.port, 6881);
    assert_eq!(session.uploaded, 0);
    assert_eq!(session.downloaded, 0);
    assert_eq!(session.left, 4);
    let request = TrackerRequest::new_compact(&torrent, &session);
    let expected = "info_hash=%B1%F6%CA%11%AE%A5%1C%AB%D8m%BA%8B%1F%B4%A9%B8wJ%B4%9C\
&peer_id=-XX0001-abcdefghijkl&port=6881&uploaded=0&downloaded=0&left=4&compact=1";
    assert_eq!(request.query(), expected);
    assert_eq!(request.query_bytes(), expected.as_bytes().to_vec());
    assert_eq!(Tracker::announce_query(&torrent, &session), expected);
    session.port = 51413;
    session.uploaded = 1234567890;
    session.downloaded = 10;
    session.left = 0;
    session.peer_id = [0, 255, b' ', b'~', b'.', b'_', b'-', b'%', b'&', b'=', b'+', b'/', b'a', b'Z', b'0', b'9', 127, 128, 1, 16];
    let request = TrackerRequest::new_compact(&torrent, &session).with_event(Event::Started);
    assert_eq!(
        request.query(),
        "info_hash=%B1%F6%CA%11%AE%A5%1C%AB%D8m%BA%8B%1F%B4%A9%B8wJ%B4%9C\
&peer_id=%00%FF%20~._-%25%26%3D%2B%2FaZ09%7F%80%01%10&port=51413&uploaded=1234567890\
&downloaded=10&left=0&compact=1&event=started"
    );
}

#[test]
fn each_event_has_its_word() {
    let torrent = torrent();
    let session = SessionState::new([b'a'; 20], 4);
    for (event, word) in [
        (Event::Started, "started"),
        (Event::Completed, "completed"),
        (Event::Stopped, "stopped"),
    ] {
        let query = TrackerRequest::new_compact(&torrent, &session).with_event(event).query();
        assert!(query.ends_with(&format!("&compact=1&event={}", word)));
    }
}

#[test]
fn a_random_peer_id_has_twenty_bytes() {
    let a = random_peer_id();
    let b = random_peer_id();
    assert_eq!(a.len(), 20);
    assert_eq!(b.len(), 20);
}
