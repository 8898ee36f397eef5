use ss::rc4::Rc4;
use ss::session::{Phase, Session};
use ss::socks::{
    greeting_reply, parse_greeting, parse_request, request_reply, DestAddr, SocksError,
};
use ss::stream::{Cipher, CryptoRead, CryptoWrite};

#[test]
fn writer_first_and_later_sizes() {
    let mut w = CryptoWrite::new(Cipher::Encrypted(Rc4::new(b"password")));
    let first = w.write(&[1, 2, 3, 4, 5]);
    assert_eq!(first.len(), 16 + 5);
    let second = w.write(&[6, 7]);
    assert_eq!(second.len(), 2);
    let third = w.write(&[]);
    assert_eq!(third.len(), 0);
}

#[test]
fn passthrough_modes_change_nothing() {
    let mut w = CryptoWrite::new(Cipher::Plain);
    assert_eq!(w.write(&[9, 8, 7]), vec![9, 8, 7]);
    let mut r = CryptoRead::new(Cipher::Plain);
    assert_eq!(r.read(&[1, 2, 3]), vec![1, 2, 3]);
}

#[test]
fn reader_strips_iv_across_splits() {
    let payload: Vec<u8> = (100u8..140u8).collect();
    let mut w = CryptoWrite::new(Cipher::Encrypted(Rc4::new(b"password")));
    let wire = w.write(&payload);
    assert_eq!(wire.len(), 16 + payload.len());

    // The whole wire in one read.
    let mut r = CryptoRead::new(Cipher::Encrypted(Rc4::new(b"password")));
    assert_eq!(r.read(&wire), payload);

    // The 16 IV bytes split across several reads, the ciphertext split too.
    for cut_a in [0usize, 1, 7, 15, 16, 20, wire.len()] {
        for cut_b in [cut_a, cut_a + 3, wire.len()] {
            let cut_b = cut_b.min(wire.len());
            let mut r = CryptoRead::new(Cipher::Encrypted(Rc4::new(b"password")));
            let mut got = r.read(&wire[..cut_a]);
            got.extend_from_slice(&r.read(&wire[cut_a..cut_b]));
            got.extend_from_slice(&r.read(&wire[cut_b..]));
            assert_eq!(got, payload);
        }
    }
}

#[test]
fn greeting_parses_and_replies() {
    assert_eq!(parse_greeting(&[5, 1, 0]), Ok(3));
    assert_eq!(parse_greeting(&[5, 2, 0, 1]), Ok(4));
    assert_eq!(parse_greeting(&[5, 2, 0]), Err(SocksError::Incomplete));
    assert_eq!(parse_greeting(&[]), Err(SocksError::Incomplete));
    assert_eq!(parse_greeting(&[4, 1, 0]), Err(SocksError::UnsupportedVersion));
    assert_eq!(greeting_reply(), vec![5, 0]);
    assert_eq!(request_reply(), vec![5, 0, 0, 1, 0, 0, 0, 0, 0, 0]);
}

#[test]
fn request_parses_ipv4() {
    let input = [5u8, 1, 0, 1, 1, 2, 3, 4, 0, 80];
    let (req, consumed) = parse_request(&input).unwrap();
    assert_eq!(consumed, 10);
    assert_eq!(req.port, 80);
    assert_eq!(req.raw, vec![1, 1, 2, 3, 4, 0, 80]);
    match req.dest {
        DestAddr::V4 { octets } => assert_eq!(octets, vec![1, 2, 3, 4]),
        _ => panic!("expected an IPv4 destination"),
    }
}

#[test]
fn request_parses_ipv6() {
    let mut input = vec![5u8, 1, 0, 4];
    input.extend_from_slice(&[0u8; 15]);
    input.push(1);
    input.extend_from_slice(&[31, 144]);
    let (req, consumed) = parse_request(&input).unwrap();
    assert_eq!(consumed, 22);
    assert_eq!(req.port, 8080);
    match req.dest {
        DestAddr::V6 { octets } => {
            assert_eq!(octets.len(), 16);
            assert_eq!(octets[15], 1);
        }
        _ => panic!("expected an IPv6 destination"),
    }
}

#[test]
fn request_parses_domain() {
    let mut input = vec![5u8, 1, 0, 3, 9];
    input.extend_from_slice(b"localhost");
    input.extend_from_slice(&[0, 80]);
    let (req, consumed) = parse_request(&input).unwrap();
    assert_eq!(consumed, 16);
    assert_eq!(req.port, 80);
    assert_eq!(req.raw.len(), 13);
    match req.dest {
        DestAddr::Domain { name } => assert_eq!(name, b"localhost".to_vec()),
        _ => panic!("expected a domain destination"),
    }
}

#[test]
fn request_domain_short_buffer_is_an_error() {
    // Declared name length 9, name present, but the port bytes are missing.
    let mut input = vec![5u8, 1, 0, 3, 9];
    input.extend_from_slice(b"example.c");
    assert!(matches!(parse_request(&input), Err(SocksError::Incomplete)));
}

#[test]
fn request_error_variants() {
    assert!(matches!(parse_request(&[5, 1, 0]), Err(SocksError::Incomplete)));
    assert!(matches!(
        parse_request(&[4, 1, 0, 1, 1, 2, 3, 4, 0, 80]),
        Err(SocksError::UnsupportedVersion)
    ));
    assert!(matches!(
        parse_request(&[5, 2, 0, 1, 1, 2, 3, 4, 0, 80]),
        Err(SocksError::UnsupportedCommand)
    ));
    assert!(matches!(
        parse_request(&[5, 1, 0, 2, 1, 2, 3, 4, 0, 80]),
        Err(SocksError::UnsupportedAddressType)
    ));
    assert!(matches!(parse_request(&[5, 1, 0, 1, 1, 2]), Err(SocksError::Incomplete)));
}

#[test]
fn session_end_to_end() {
    let mut session = Session::new(b"password");

    // Client greeting, then the CONNECT request for 93.184.216.34:80.
    let (reply, consumed) = session.on_greeting(&[5, 1, 0]).unwrap();
    assert_eq!(reply, vec![5, 0]);
    assert_eq!(consumed, 3);
    assert_eq!(session.phase, Phase::Request);

    let request = [5u8, 1, 0, 1, 93, 184, 216, 34, 0, 80];
    let outcome = session.on_request(&request).unwrap();
    assert_eq!(session.phase, Phase::Proxying);
    assert_eq!(outcome.client_reply, vec![5, 0, 0, 1, 0, 0, 0, 0, 0, 0]);
    assert_eq!(outcome.consumed, 10);
    assert_eq!(outcome.request.raw, vec![1, 93, 184, 216, 34, 0, 80]);

    // The first upstream payload is a 16-byte IV plus the encrypted raw
    // address; the remote peer, keyed with the same password, recovers it.
    assert_eq!(outcome.upstream_first.len(), 16 + 7);
    let mut peer_read = CryptoRead::new(Cipher::Encrypted(Rc4::new(b"password")));
    assert_eq!(peer_read.read(&outcome.upstream_first), vec![1, 93, 184, 216, 34, 0, 80]);

    // Proxying: client bytes go out encrypted and the peer decodes them;
    // peer bytes come back encrypted and the local reader decodes them.
    let (mut enc, mut dec) = session.into_parts();
    let wire = enc.write(b"GET / HTTP/1.0\r\n\r\n");
    assert_eq!(wire.len(), 18);
    assert_eq!(peer_read.read(&wire), b"GET / HTTP/1.0\r\n\r\n".to_vec());

    let mut peer_write = CryptoWrite::new(Cipher::Encrypted(Rc4::new(b"password")));
    let back = peer_write.write(b"HTTP/1.0 200 OK\r\n");
    assert_eq!(back.len(), 16 + 17);
    assert_eq!(dec.read(&back), b"HTTP/1.0 200 OK\r\n".to_vec());
}

#[test]
fn session_aborts_on_bad_request() {
    let mut session = Session::new(b"password");
    session.on_greeting(&[5, 1, 0]).unwrap();
    let err = match session.on_request(&[5, 2, 0, 1, 1, 2, 3, 4, 0, 80]) {
        Err(e) => e,
        Ok(_) => panic!("a BIND command must be rejected"),
    };
    assert_eq!(err, SocksError::UnsupportedCommand);
    assert_eq!(session.phase, Phase::Closed);
}
