use rexa::codec::{tokenize, Group, TokenTree};
use rexa::handshake::{
    check_start_session, DescHandoffGive, DescHandoffReceive, recv_start_session, OpStartSession, SessionInitError, SigningKey,
    CAPTP_VERSION,
};
use rexa::locator::{NodeLocator, SturdyRefLocator};
use rexa::netlayer::{tcp_address, TcpConnectError};
use rexa::uri::{ParseSturdyRefUriError, ParseUriError};
use rexa::msg::{
    DescExport, DescImport, DescImportObject, DescImportPromise, OpAbort, OpDeliver,
    OpDeliverOnly, Operation, PublicKey, Signature,
};

fn reparse(t: TokenTree) -> TokenTree {
    let bytes = t.encode();
    let (back, n) = tokenize(&bytes).unwrap();
    assert_eq!(n, bytes.len());
    back
}

fn locator() -> NodeLocator {
    let mut l = NodeLocator::new("127.0.0.1".to_string(), "tcpip".to_string());
    l.hints.push(("port".to_string(), "4000".to_string()));
    l.hints.push(("userinfo".to_string(), "me".to_string()));
    l
}

#[test]
fn desc_records_have_their_labels() {
    assert_eq!(DescExport { position: 5 }.to_tokens().encode(), b"<11'desc:export5+>".to_vec());
    assert_eq!(
        DescImportObject { position: 0 }.to_tokens().encode(),
        b"<18'desc:import-object0+>".to_vec()
    );
    assert_eq!(
        DescImportPromise { position: 2 }.to_tokens().encode(),
        b"<19'desc:import-promise2+>".to_vec()
    );
}

#[test]
fn desc_imports_round_trip() {
    for d in [
        DescImport::Object(DescImportObject { position: 3 }),
        DescImport::Promise(DescImportPromise { position: 4 }),
        DescImport::bootstrap(),
    ] {
        assert_eq!(DescImport::decode(reparse(d.to_tokens())), Ok(d));
    }
    assert_eq!(DescExport::decode(reparse(DescExport { position: u64::MAX }.to_tokens())), Ok(DescExport { position: u64::MAX }));
    assert!(DescExport::decode(DescImportObject { position: 1 }.to_tokens()).is_err());
    assert!(DescExport::decode(TokenTree::Int(1)).is_err());
    assert_eq!(DescImport::default(), DescImport::bootstrap());
}

#[test]
fn operations_round_trip() {
    let ops = vec![
        Operation::DeliverOnly(OpDeliverOnly::new(
            DescExport { position: 3 },
            vec![TokenTree::Symbol("go".to_string()), TokenTree::Int(-1)],
        )),
        Operation::Deliver(OpDeliver::new(
            DescExport { position: 0 },
            vec![TokenTree::Bytes(vec![9])],
            Some(12),
            DescImport::Promise(DescImportPromise { position: 8 }),
        )),
        Operation::Deliver(OpDeliver::new(DescExport { position: 1 }, vec![], None, DescImport::bootstrap())),
        Operation::Abort(OpAbort::new("bye".to_string())),
    ];
    for op in ops {
        let bytes = op.to_tokens().encode();
        let (tree, _) = tokenize(&bytes).unwrap();
        let back = Operation::decode(tree).unwrap();
        assert_eq!(back.to_tokens().encode(), bytes);
    }
}

#[test]
fn operation_decoding_checks_schema() {
    let wrong_label = TokenTree::Group(
        Group::Record,
        vec![TokenTree::Symbol("op:pick".to_string()), TokenTree::Int(1)],
    );
    assert!(Operation::decode(wrong_label).is_err());
    let wrong_arity = TokenTree::Group(Group::Record, vec![TokenTree::Symbol("op:abort".to_string())]);
    assert!(Operation::decode(wrong_arity).is_err());
    let wrong_kind = TokenTree::Group(
        Group::Record,
        vec![TokenTree::Symbol("op:abort".to_string()), TokenTree::Int(1)],
    );
    assert_eq!(OpAbort::decode(wrong_kind).unwrap_err().position, 1);
    let abort = OpAbort::decode(reparse(OpAbort::new("why".to_string()).to_tokens())).unwrap();
    assert_eq!(abort.reason, "why");
}

#[test]
fn locator_record_round_trip() {
    let l = locator();
    let bytes = l.to_tokens().encode();
    assert!(bytes.starts_with(b"<10'ocapn-node9\"127.0.0.15'tcpip{4'port4\"4000"));
    let (tree, _) = tokenize(&bytes).unwrap();
    assert_eq!(NodeLocator::decode(tree), Ok(l));
    let bare = NodeLocator::new("abc".to_string(), "mock".to_string());
    assert_eq!(bare.to_tokens().encode(), b"<10'ocapn-node3\"abc4'mockf>".to_vec());
    assert_eq!(NodeLocator::decode(reparse(bare.to_tokens())), Ok(bare));
}

#[test]
fn keys_and_signatures_have_fixed_lengths() {
    let k = PublicKey { ecc: vec![7; 32] };
    assert_eq!(PublicKey::decode(reparse(k.clone().to_tokens())), Ok(k));
    assert!(PublicKey::decode(PublicKey { ecc: vec![7; 31] }.to_tokens()).is_err());
    let s = Signature { eddsa: vec![1; 64] };
    assert_eq!(Signature::decode(reparse(s.clone().to_tokens())), Ok(s));
    assert!(Signature::decode(Signature { eddsa: vec![1; 65] }.to_tokens()).is_err());
}

#[test]
fn handshake_messages_verify_and_round_trip() {
    let a = SigningKey::from_bytes([1; 32]);
    let b = SigningKey::from_bytes([2; 32]);
    let la = NodeLocator::new("alice".to_string(), "mock".to_string());
    let lb = locator();
    let msg_a = OpStartSession::new(&a, la.clone());
    let msg_b = OpStartSession::new(&b, lb.clone());
    assert_eq!(msg_a.captp_version, CAPTP_VERSION);
    let (key_a, loc_a) = recv_start_session(reparse(msg_a.to_tokens())).unwrap();
    let (key_b, loc_b) = recv_start_session(reparse(msg_b.to_tokens())).unwrap();
    assert_eq!(key_a, a.verifying_key());
    assert_eq!(key_b, b.verifying_key());
    assert_ne!(key_a, key_b);
    assert_eq!(loc_a, la);
    assert_eq!(loc_b, lb);
}

#[test]
fn tampered_location_fails_verification() {
    let a = SigningKey::from_bytes([1; 32]);
    let mut msg = OpStartSession::new(&a, NodeLocator::new("alice".to_string(), "mock".to_string()));
    assert!(msg.verify_location());
    msg.acceptable_location.designator = "mallory".to_string();
    assert!(!msg.verify_location());
    assert!(matches!(check_start_session(msg.clone()), Err(SessionInitError::Signature)));
    assert!(matches!(recv_start_session(msg.to_tokens()), Err(SessionInitError::Signature)));
}

#[test]
fn other_version_is_refused() {
    let a = SigningKey::from_bytes([1; 32]);
    let mut msg = OpStartSession::new(&a, NodeLocator::new("alice".to_string(), "mock".to_string()));
    msg.captp_version = "0.9".to_string();
    match check_start_session(msg) {
        Err(SessionInitError::Version(v)) => assert_eq!(v, "0.9"),
        other => panic!("unexpected {:?}", other),
    }
}

#[test]
fn non_start_messages_are_decode_errors() {
    assert!(matches!(
        recv_start_session(OpAbort::new("x".to_string()).to_tokens()),
        Err(SessionInitError::Decode(_))
    ));
}

#[test]
fn generated_keys_differ() {
    let a = SigningKey::generate();
    let b = SigningKey::generate();
    assert_ne!(a.verifying_key(), b.verifying_key());
    assert_eq!(a.sign(b"x").eddsa.len(), 64);
}

#[test]
fn locator_from_uri() {
    let l = NodeLocator::from_uri("OCAPN://me%20too@127.0.0.1.tcpip:4000/?a=1&b=x%2Fy&c&a=2").unwrap();
    assert_eq!(l.designator, "127.0.0.1");
    assert_eq!(l.transport, "tcpip");
    assert_eq!(
        l.hints,
        vec![
            ("userinfo".to_string(), "me too".to_string()),
            ("port".to_string(), "4000".to_string()),
            ("a".to_string(), "2".to_string()),
            ("b".to_string(), "x/y".to_string()),
        ]
    );
    assert_eq!(l.hint("port"), Some(&"4000".to_string()));
    assert_eq!(l.hint("missing"), None);
}

#[test]
fn locator_uri_errors() {
    assert!(matches!(NodeLocator::from_uri("http://a.b"), Err(ParseUriError::UnrecognizedScheme(s)) if s == "http"));
    assert!(matches!(NodeLocator::from_uri("ocapn:nothing"), Err(ParseUriError::MissingAuthority)));
    assert!(matches!(NodeLocator::from_uri("ocapn://nodot"), Err(ParseUriError::MissingTransport)));
    assert!(matches!(NodeLocator::from_uri("ocapn://a.b?k=%FF"), Err(ParseUriError::DecodeHint)));
    assert!(matches!(NodeLocator::from_uri("oc apn://"), Err(ParseUriError::Uri)));
}

#[test]
fn locator_to_uri_round_trip() {
    let mut l = NodeLocator::new("abc".to_string(), "onion".to_string());
    assert_eq!(l.encoded_query(), None);
    assert_eq!(l.to_uri().unwrap(), "ocapn://abc.onion");
    l.hints.push(("port".to_string(), "9000".to_string()));
    l.hints.push(("userinfo".to_string(), "u".to_string()));
    l.hints.push(("k".to_string(), "v w".to_string()));
    l.hints.push(("x".to_string(), "y".to_string()));
    assert_eq!(l.encoded_host(), "abc.onion");
    assert_eq!(l.encoded_userinfo().unwrap(), "u");
    assert_eq!(l.encoded_query().unwrap(), "k=v%20w&x=y");
    let uri = l.to_uri().unwrap();
    assert_eq!(uri, "ocapn://u@abc.onion:9000?k=v%20w&x=y");
    let back = NodeLocator::from_uri(&uri).unwrap();
    assert_eq!(back.designator, "abc");
    assert_eq!(back.hint("k"), Some(&"v w".to_string()));
    assert_eq!(back.hint("userinfo"), Some(&"u".to_string()));
}

#[test]
fn sturdy_refs() {
    let node = NodeLocator::new("abc".to_string(), "mock".to_string());
    let sr = SturdyRefLocator::new(node.clone(), vec![1, 2, b'z']);
    assert_eq!(sr.encoded_path(), "/s/%01%02z");
    let uri = sr.to_uri().unwrap();
    assert_eq!(uri, "ocapn://abc.mock/s/%01%02z");
    let back = SturdyRefLocator::from_uri(&uri).unwrap();
    assert_eq!(back, sr);
    assert!(matches!(SturdyRefLocator::from_uri("ocapn://abc.mock"), Err(ParseSturdyRefUriError::MissingPath)));
    assert!(matches!(SturdyRefLocator::from_uri("ocapn://abc.mock/x/1"), Err(ParseSturdyRefUriError::InvalidPath)));
    let (tree, _) = tokenize(&sr.to_tokens().encode()).unwrap();
    assert_eq!(SturdyRefLocator::decode(tree), Ok(sr));
}

#[test]
fn handoff_records_round_trip() {
    let give = DescHandoffGive {
        receiver_key: PublicKey { ecc: vec![3; 32] },
        exporter_location: locator(),
        session: vec![1],
        gifter_side: vec![2],
        gift_id: vec![3, 4],
    };
    let receive = DescHandoffReceive {
        receiving_session: vec![5],
        receiving_side: vec![6],
        handoff_count: 7,
        signed_give: give.clone(),
    };
    assert_eq!(DescHandoffGive::decode(reparse(give.to_tokens())), Ok(give));
    assert_eq!(DescHandoffReceive::decode(reparse(receive.to_tokens())), Ok(receive.clone()));
    assert!(DescHandoffGive::decode(receive.to_tokens()).is_err());
}

#[test]
fn tcp_addresses_come_from_the_port_hint() {
    let mut l = NodeLocator::new("127.0.0.1".to_string(), "tcpip".to_string());
    assert!(matches!(tcp_address(&l), Err(TcpConnectError::MissingPort)));
    l.hints.push(("port".to_string(), "70000".to_string()));
    assert!(matches!(tcp_address(&l), Err(TcpConnectError::ParsePort(_))));
    l.hints[0].1 = "+0080".to_string();
    let (host, port) = tcp_address(&l).unwrap();
    assert_eq!(host, "127.0.0.1");
    assert_eq!(port, 80);
}

#[test]
fn duplicate_hint_keys_are_rejected() {
    let mut l = NodeLocator::new("abc".to_string(), "mock".to_string());
    l.hints.push(("k".to_string(), "1".to_string()));
    l.hints.push(("k".to_string(), "2".to_string()));
    assert!(NodeLocator::decode(reparse(l.to_tokens())).is_err());
}

#[test]
fn designator_and_transport_are_percent_decoded() {
    let l = NodeLocator::new("a b/c".to_string(), "mock".to_string());
    assert_eq!(l.encoded_host(), "a%20b%2Fc.mock");
    let uri = l.to_uri().unwrap();
    assert!(!uri.contains(' '));
    let back = NodeLocator::from_uri(&uri).unwrap();
    assert_eq!(back.designator, "a b/c");
    assert_eq!(back.transport, "mock");
    let l2 = NodeLocator::from_uri("ocapn://x%41y.tcpip").unwrap();
    assert_eq!(l2.designator, "xAy");
}
