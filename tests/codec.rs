use rexa::codec::{tokenize, Group, LexError, TokenTree};
use rexa::io::ReadBuffer;

fn sym(s: &str) -> TokenTree {
    TokenTree::Symbol(s.to_string())
}

fn sample() -> TokenTree {
    TokenTree::Group(
        Group::Record,
        vec![
            sym("op:deliver"),
            TokenTree::Int(-42),
            TokenTree::Int(7),
            TokenTree::Bool(true),
            TokenTree::Bool(false),
            TokenTree::Float(vec![0x3f, 0xf0, 0, 0, 0, 0, 0, 0]),
            TokenTree::Bytes(vec![1, 2, 3]),
            TokenTree::Str("héllo".to_string()),
            TokenTree::Group(Group::List, vec![TokenTree::Int(0)]),
            TokenTree::Group(
                Group::Dict,
                vec![sym("port"), TokenTree::Str("8080".to_string())],
            ),
            TokenTree::Group(Group::Collection, vec![]),
        ],
    )
}

#[test]
fn encodes_each_kind_of_value() {
    assert_eq!(TokenTree::Int(0).encode(), b"0+".to_vec());
    assert_eq!(TokenTree::Int(42).encode(), b"42+".to_vec());
    assert_eq!(TokenTree::Int(-5).encode(), b"5-".to_vec());
    assert_eq!(TokenTree::Bool(true).encode(), b"t".to_vec());
    assert_eq!(TokenTree::Bool(false).encode(), b"f".to_vec());
    assert_eq!(TokenTree::Bytes(vec![1, 2, 3]).encode(), vec![b'3', b':', 1, 2, 3]);
    assert_eq!(TokenTree::Str("abc".to_string()).encode(), b"3\"abc".to_vec());
    assert_eq!(sym("fetch").encode(), b"5'fetch".to_vec());
    assert_eq!(TokenTree::Str("é".to_string()).encode(), vec![b'2', b'"', 0xc3, 0xa9]);
    assert_eq!(
        TokenTree::Group(Group::List, vec![TokenTree::Int(1), TokenTree::Bool(true)]).encode(),
        b"[1+t]".to_vec()
    );
    assert_eq!(TokenTree::Group(Group::Record, vec![sym("a")]).encode(), b"<1'a>".to_vec());
    assert_eq!(TokenTree::Group(Group::Dict, vec![]).encode(), b"{}".to_vec());
    assert_eq!(TokenTree::Group(Group::Collection, vec![]).encode(), b"#$".to_vec());
    assert_eq!(TokenTree::Float(vec![1, 2, 3, 4]).encode(), vec![b'F', 1, 2, 3, 4]);
}

#[test]
fn tokenize_reads_back_an_encoding() {
    let t = sample();
    let bytes = t.encode();
    let mut with_rest = bytes.clone();
    with_rest.extend_from_slice(b"t7+");
    let (back, n) = tokenize(&with_rest).unwrap();
    assert_eq!(n, bytes.len());
    assert_eq!(back.encode(), bytes);
    match back {
        TokenTree::Group(Group::Record, items) => {
            assert_eq!(items.len(), 11);
            match &items[1] {
                TokenTree::Int(v) => assert_eq!(*v, -42),
                other => panic!("unexpected {:?}", other),
            }
            match &items[7] {
                TokenTree::Str(s) => assert_eq!(s, "héllo"),
                other => panic!("unexpected {:?}", other),
            }
        }
        other => panic!("unexpected {:?}", other),
    }
}

#[test]
fn every_strict_prefix_is_incomplete() {
    let bytes = sample().encode();
    for k in 0..bytes.len() {
        match tokenize(&bytes[..k]) {
            Err(LexError::Incomplete(_)) => {}
            other => panic!("prefix of length {} gave {:?}", k, other.map(|(_, n)| n)),
        }
    }
}

#[test]
fn malformed_inputs_are_rejected() {
    for bad in [
        &b"x"[..],
        b"]",
        b"<>",
        b"{1+}",
        b"01+",
        b"0-",
        b"3?abc",
        b"99999999999999999999+",
        b"2\"\xff\xfe",
        b"[1+>",
    ] {
        assert_eq!(tokenize(bad).map(|(_, n)| n), Err(LexError::Malformed), "input {:?}", bad);
    }
}

#[test]
fn largest_integers_round_trip() {
    for v in [u64::MAX as i128, -(u64::MAX as i128)] {
        let bytes = TokenTree::Int(v).encode();
        let (back, n) = tokenize(&bytes).unwrap();
        assert_eq!(n, bytes.len());
        match back {
            TokenTree::Int(w) => assert_eq!(w, v),
            other => panic!("unexpected {:?}", other),
        }
    }
}

#[test]
fn byte_by_byte_feeding_yields_each_message_in_order() {
    let messages = vec![
        sample(),
        TokenTree::Int(3),
        TokenTree::Group(Group::Record, vec![sym("op:abort"), TokenTree::Str("bye".to_string())]),
    ];
    let mut stream = Vec::new();
    for m in &messages {
        stream.extend(m.encode());
    }
    let mut buffer = ReadBuffer::new();
    let mut out = Vec::new();
    for b in stream {
        buffer.fill(&[b]);
        loop {
            match buffer.try_consume_syrup() {
                Ok(t) => out.push(t),
                Err(LexError::Incomplete(_)) => break,
                Err(LexError::Malformed) => panic!("malformed"),
            }
        }
    }
    assert_eq!(out.len(), messages.len());
    for (a, b) in out.iter().zip(messages.iter()) {
        assert_eq!(a.encode(), b.encode());
    }
    assert!(buffer.fill_buf().is_empty());
}

#[test]
fn incomplete_read_leaves_the_buffer_intact() {
    let mut buffer = ReadBuffer::new();
    buffer.fill(b"5'fet");
    assert!(matches!(buffer.try_consume_syrup(), Err(LexError::Incomplete(_))));
    assert_eq!(buffer.fill_buf(), b"5'fet");
    buffer.fill(b"cht");
    let t = buffer.try_consume_syrup().unwrap();
    assert_eq!(t.encode(), b"5'fetch".to_vec());
    assert_eq!(buffer.fill_buf(), b"t");
}

#[test]
fn incomplete_reports_missing_bytes_when_known() {
    assert_eq!(tokenize(b"5:ab").map(|(_, n)| n), Err(LexError::Incomplete(Some(3))));
    assert_eq!(tokenize(b"D123").map(|(_, n)| n), Err(LexError::Incomplete(Some(5))));
    assert_eq!(tokenize(b"12").map(|(_, n)| n), Err(LexError::Incomplete(None)));
    assert_eq!(tokenize(b"[3\"ab").map(|(_, n)| n), Err(LexError::Incomplete(Some(1))));
    assert_eq!(tokenize(b"").map(|(_, n)| n), Err(LexError::Incomplete(None)));
}
