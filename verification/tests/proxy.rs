use rudy::cache::{CertCache, LeafLookup};
use rudy::cert::{gen_ca, subject_name, RootCA, SanEntry};
use rudy::dispatch::{classify, parse_authority, response_bad_request, response_not_implemented, Route};
use rudy::forward::{rewrite_plain_forward, ForwardError};
use rudy::http::{serialize_request, serialize_response, Body, Version};
use rudy::parser::parse_request;
use rudy::tunnel::{
    response_bad_gateway, response_connection_established, response_handler_error, tunnel_step,
    PumpPhase, TunnelEvent, TunnelState,
};

const NOW: u64 = 1_700_000_000;

fn test_root_ca() -> RootCA {
    RootCA {
        subject: subject_name(b"Rudy", b"Rudy", b"Rudy", b"Rudy", b"Rudy"),
        cert_der: b"cert-der".to_vec(),
        key_der: b"key-der".to_vec(),
    }
}

#[test]
fn plain_forward_scenario() {
    // A client asks the proxy for an absolute-form URI; the origin must see
    // the origin-form request with the client recorded and no hop-by-hop
    // fields.
    let bytes = b"GET http://example.com/ HTTP/1.1\r\nHost: example.com\r\n\r\n";
    let (req, used) = parse_request(bytes).expect("must parse");
    assert_eq!(used, bytes.len());
    let route = classify(&req);
    assert!(matches!(route, Route::PlainForward));
    let plan = rewrite_plain_forward(req, b"127.0.0.1").expect("must rewrite");
    assert_eq!(plan.host.as_slice(), b"example.com".as_slice());
    assert_eq!(plan.port, 80);
    let out = serialize_request(&plan.outbound);
    assert_eq!(
        out.as_slice(),
        b"GET / HTTP/1.1\r\nHost: example.com\r\nX-Forwarded-For: 127.0.0.1\r\n\r\n".as_slice()
    );
}

#[test]
fn plain_forward_strips_connection() {
    let bytes =
        b"GET http://example.com/a HTTP/1.1\r\nHost: example.com\r\nConnection: keep-alive\r\nProxy-Connection: keep-alive\r\nAccept: */*\r\n\r\n";
    let (req, _) = parse_request(bytes).expect("must parse");
    let plan = rewrite_plain_forward(req, b"10.0.0.9").expect("must rewrite");
    let names: Vec<&[u8]> = plan.outbound.headers.iter().map(|h| h.name.as_slice()).collect();
    assert_eq!(
        names,
        vec![b"Host".as_slice(), b"Accept".as_slice(), b"X-Forwarded-For".as_slice()]
    );
}

#[test]
fn xff_appends_to_existing_list() {
    let bytes =
        b"GET http://example.com/ HTTP/1.1\r\nHost: example.com\r\nX-Forwarded-For: 10.1.1.1\r\n\r\n";
    let (req, _) = parse_request(bytes).expect("must parse");
    let plan = rewrite_plain_forward(req, b"127.0.0.1").expect("must rewrite");
    let xff = plan
        .outbound
        .headers
        .iter()
        .find(|h| h.name.eq_ignore_ascii_case(b"x-forwarded-for"))
        .expect("field present");
    assert_eq!(xff.value.as_slice(), b"10.1.1.1, 127.0.0.1".as_slice());
}

#[test]
fn forward_rejects_non_absolute() {
    let (req, _) = parse_request(b"GET /local HTTP/1.1\r\nHost: x\r\n\r\n").unwrap();
    assert_eq!(rewrite_plain_forward(req, b"1.2.3.4").unwrap_err(), ForwardError::NotAbsolute);
}

#[test]
fn forward_rejects_bad_authority() {
    let (req, _) = parse_request(b"GET http://:80/ HTTP/1.1\r\nHost: x\r\n\r\n").unwrap();
    assert_eq!(rewrite_plain_forward(req, b"1.2.3.4").unwrap_err(), ForwardError::BadAuthority);
}

#[test]
fn unknown_method_scenario() {
    // `FOO / HTTP/1.1` is neither CONNECT nor absolute-form: 501 and close.
    let bytes = b"FOO / HTTP/1.1\r\nHost: x\r\n\r\n";
    let (req, _) = parse_request(bytes).expect("must parse");
    let route = classify(&req);
    assert!(matches!(route, Route::NotImplemented));
    let resp = response_not_implemented();
    assert_eq!(
        serialize_response(&resp).as_slice(),
        b"HTTP/1.1 501 Not Implemented\r\n\r\n".as_slice()
    );
}

#[test]
fn bad_request_answer() {
    let resp = response_bad_request();
    assert_eq!(
        serialize_response(&resp).as_slice(),
        b"HTTP/1.1 400 Bad Request\r\n\r\n".as_slice()
    );
}

#[test]
fn classify_connect() {
    let (req, _) =
        parse_request(b"CONNECT example.com:443 HTTP/1.1\r\nHost: example.com:443\r\n\r\n")
            .expect("must parse");
    match classify(&req) {
        Route::Connect { host, port } => {
            assert_eq!(host.as_slice(), b"example.com".as_slice());
            assert_eq!(port, 443);
        },
        _ => panic!("must route to the tunnel"),
    }
}

#[test]
fn classify_connect_lowercases_host() {
    let (req, _) =
        parse_request(b"CONNECT Example.COM:443 HTTP/1.1\r\nHost: example.com:443\r\n\r\n")
            .unwrap();
    match classify(&req) {
        Route::Connect { host, .. } => assert_eq!(host.as_slice(), b"example.com".as_slice()),
        _ => panic!("must route to the tunnel"),
    }
}

#[test]
fn classify_bad_connect_authority() {
    let (req, _) = parse_request(b"CONNECT bad:0 HTTP/1.1\r\nHost: x\r\n\r\n").unwrap();
    assert!(matches!(classify(&req), Route::BadConnect));
}

#[test]
fn authority_defaults() {
    let (host, port) = parse_authority(b"example.com", 443).expect("bare host");
    assert_eq!(host.as_slice(), b"example.com".as_slice());
    assert_eq!(port, 443);
    let (host2, port2) = parse_authority(b"example.com:8443", 443).expect("host and port");
    assert_eq!(host2.as_slice(), b"example.com".as_slice());
    assert_eq!(port2, 8443);
    assert!(parse_authority(b"", 443).is_none());
    assert!(parse_authority(b"h:99999", 443).is_none());
}

#[test]
fn connect_mitm_scenario() {
    // After CONNECT the proxy acknowledges, then presents a leaf for the
    // host, issued under the root CA's name.
    let resp = response_connection_established();
    assert_eq!(
        serialize_response(&resp).as_slice(),
        b"HTTP/1.1 200 Connection Established\r\n\r\n".as_slice()
    );
    let mut cache = CertCache::new(test_root_ca());
    let params = match cache.get_cert(b"example.com", NOW).expect("mint must start") {
        LeafLookup::Mint(p) => p,
        _ => panic!("first lookup must claim the mint"),
    };
    assert_eq!(params.subject.len(), 1);
    assert_eq!(params.subject[0].kind.as_slice(), b"CN".as_slice());
    assert_eq!(params.subject[0].value.as_slice(), b"example.com".as_slice());
    match params.san.as_ref().expect("a leaf names its host") {
        SanEntry::Dns(name) => assert_eq!(name.as_slice(), b"example.com".as_slice()),
        SanEntry::Ip(_) => panic!("a DNS name gets a DNS entry"),
    }
    // The leaf chains to the root: its issuer is the root's subject.
    let root = test_root_ca();
    assert_eq!(params.issuer.len(), root.subject.len());
    for (a, b) in params.issuer.iter().zip(root.subject.iter()) {
        assert_eq!(a.kind, b.kind);
        assert_eq!(a.value, b.value);
    }
    // And it is valid at its minting instant, for one year.
    assert!(params.not_before <= NOW && NOW <= params.not_after);
    assert_eq!(params.not_after, NOW + 31536000);
    assert!(!params.is_ca);
}

#[test]
fn cache_hit_scenario() {
    // A second CONNECT for the same host sees the same leaf material, so
    // the same serial is presented.
    let mut cache = CertCache::new(test_root_ca());
    match cache.get_cert(b"example.com", NOW).unwrap() {
        LeafLookup::Mint(_) => {},
        _ => panic!("first lookup must claim the mint"),
    }
    cache.finish_mint(b"example.com", b"pkcs12-material");
    match cache.get_cert(b"example.com", NOW).unwrap() {
        LeafLookup::Cached(blob) => assert_eq!(blob.as_slice(), b"pkcs12-material".as_slice()),
        _ => panic!("second lookup must hit"),
    }
    match cache.get_cert(b"EXAMPLE.com", NOW).unwrap() {
        LeafLookup::Cached(blob) => assert_eq!(blob.as_slice(), b"pkcs12-material".as_slice()),
        _ => panic!("the key is the lowercased host"),
    }
}

#[test]
fn cache_single_flight() {
    // While one caller is minting, another caller for the same host waits;
    // a different host mints independently; an aborted mint may be retried.
    let mut cache = CertCache::new(test_root_ca());
    assert!(matches!(cache.get_cert(b"a.test", NOW).unwrap(), LeafLookup::Mint(_)));
    assert!(matches!(cache.get_cert(b"a.test", NOW).unwrap(), LeafLookup::Wait));
    assert!(matches!(cache.get_cert(b"b.test", NOW).unwrap(), LeafLookup::Mint(_)));
    cache.fail_mint(b"a.test");
    assert!(matches!(cache.get_cert(b"a.test", NOW).unwrap(), LeafLookup::Mint(_)));
}

#[test]
fn ip_literal_gets_ip_entry() {
    let mut cache = CertCache::new(test_root_ca());
    let params = match cache.get_cert(b"93.184.216.34", NOW).unwrap() {
        LeafLookup::Mint(p) => p,
        _ => panic!("must mint"),
    };
    match params.san.as_ref().expect("a leaf names its host") {
        SanEntry::Ip(addr) => assert_eq!(addr.as_slice(), b"93.184.216.34".as_slice()),
        SanEntry::Dns(_) => panic!("an address literal gets an IP entry"),
    }
}

#[test]
fn ipv4_literal_recognition() {
    assert!(rudy::cert::is_ipv4_literal_exec(b"93.184.216.34"));
    assert!(rudy::cert::is_ipv4_literal_exec(b"0.0.0.0"));
    assert!(!rudy::cert::is_ipv4_literal_exec(b"example.com"));
    assert!(!rudy::cert::is_ipv4_literal_exec(b"1.2.3"));
    assert!(!rudy::cert::is_ipv4_literal_exec(b"1.2.3.4.5"));
    assert!(!rudy::cert::is_ipv4_literal_exec(b"256.1.1.1"));
    assert!(!rudy::cert::is_ipv4_literal_exec(b"1..2.3"));
}

#[test]
fn ca_generation() {
    let ca = gen_ca(NOW).expect("generation must succeed");
    assert!(ca.is_ca);
    assert!(ca.bc_critical);
    assert!(ca.key_usage.key_cert_sign && ca.key_usage.crl_sign);
    assert!(!ca.key_usage.digital_signature);
    assert_eq!(ca.not_before, NOW);
    assert_eq!(ca.not_after, NOW + 315360000);
    assert!(ca.serial.len() <= 20);
    assert_eq!(ca.subject.len(), 5);
    assert_eq!(ca.subject[4].kind.as_slice(), b"CN".as_slice());
    assert_eq!(ca.subject[4].value.as_slice(), b"Rudy".as_slice());
    for (a, b) in ca.subject.iter().zip(ca.issuer.iter()) {
        assert_eq!(a.kind, b.kind);
        assert_eq!(a.value, b.value);
    }
}

#[test]
fn ca_regeneration_keeps_issuer_name() {
    // Re-minting under a regenerated pair still chains to the same root
    // name, and equal leaf inputs give equal parameters but for the serial.
    let ca1 = gen_ca(NOW).unwrap();
    let ca2 = gen_ca(NOW + 60).unwrap();
    for (a, b) in ca1.subject.iter().zip(ca2.subject.iter()) {
        assert_eq!(a.kind, b.kind);
        assert_eq!(a.value, b.value);
    }
    let leaf = rudy::cert::gen_cert(&ca2.subject, b"host.test", NOW + 120).unwrap();
    for (a, b) in leaf.issuer.iter().zip(ca1.subject.iter()) {
        assert_eq!(a.kind, b.kind);
        assert_eq!(a.value, b.value);
    }
}

#[test]
fn random_serials_are_bounded() {
    for _ in 0..8 {
        let serial = rudy::cert::random_serial().expect("drawing must succeed");
        assert!(serial.len() <= 20);
    }
}

#[test]
fn short_circuit_scenario() {
    // A handler answers 418 itself: the tunnel never reaches the dial
    // state, and the canned response goes back to the client.
    let mut state = TunnelState::Pumping { phase: PumpPhase::ReadingRequest };
    state = tunnel_step(state, TunnelEvent::RequestParsed);
    assert!(matches!(state, TunnelState::Pumping { phase: PumpPhase::InspectingRequest }));
    state = tunnel_step(state, TunnelEvent::HandlerShortCircuit);
    assert!(matches!(state, TunnelState::Pumping { phase: PumpPhase::WritingShortCircuit }));
    state = tunnel_step(state, TunnelEvent::WriteDone { keep_alive: false });
    assert!(matches!(state, TunnelState::Closed));
    let canned = rudy::http::Response {
        version: Version::Http11,
        status: 418,
        reason: b"I'm a teapot".to_vec(),
        headers: vec![],
        body: Body::Sized(b"teapot".to_vec()),
    };
    assert_eq!(
        serialize_response(&canned).as_slice(),
        b"HTTP/1.1 418 I'm a teapot\r\nContent-Length: 6\r\n\r\nteapot".as_slice()
    );
}

#[test]
fn upstream_unreachable_scenario() {
    // CONNECT to an unreachable origin: the tunnel reaches the dial state,
    // the dial fails, and a 502 is written inside the client TLS session.
    let mut state = TunnelState::AwaitingConnect;
    state = tunnel_step(
        state,
        TunnelEvent::ConnectAccepted { host: b"nonexistent.invalid".to_vec(), port: 443 },
    );
    assert!(matches!(state, TunnelState::SendingOk { .. }));
    state = tunnel_step(state, TunnelEvent::OkSent);
    assert!(matches!(state, TunnelState::ClientTlsHandshake { .. }));
    state = tunnel_step(state, TunnelEvent::ClientTlsDone);
    assert!(matches!(state, TunnelState::UpstreamDial { .. }));
    state = tunnel_step(state, TunnelEvent::DialFailed);
    assert!(matches!(state, TunnelState::SendingBadGateway));
    let resp = response_bad_gateway(b"connection refused");
    assert_eq!(
        serialize_response(&resp).as_slice(),
        b"HTTP/1.1 502 Bad Gateway\r\nContent-Type: text/plain\r\nContent-Length: 18\r\n\r\nconnection refused"
            .as_slice()
    );
    state = tunnel_step(state, TunnelEvent::WriteDone { keep_alive: false });
    assert!(matches!(state, TunnelState::Closed));
}

#[test]
fn tunnel_full_exchange_and_keep_alive() {
    let mut state = TunnelState::AwaitingConnect;
    state = tunnel_step(
        state,
        TunnelEvent::ConnectAccepted { host: b"example.com".to_vec(), port: 443 },
    );
    state = tunnel_step(state, TunnelEvent::OkSent);
    state = tunnel_step(state, TunnelEvent::ClientTlsDone);
    state = tunnel_step(state, TunnelEvent::DialDone);
    assert!(matches!(state, TunnelState::UpstreamTlsHandshake { .. }));
    state = tunnel_step(state, TunnelEvent::UpstreamTlsDone);
    assert!(matches!(state, TunnelState::Pumping { phase: PumpPhase::ReadingRequest }));
    state = tunnel_step(state, TunnelEvent::RequestParsed);
    state = tunnel_step(state, TunnelEvent::HandlerForwarded);
    assert!(matches!(state, TunnelState::Pumping { phase: PumpPhase::ForwardingRequest }));
    state = tunnel_step(state, TunnelEvent::ResponseParsed);
    assert!(matches!(state, TunnelState::Pumping { phase: PumpPhase::InspectingResponse }));
    state = tunnel_step(state, TunnelEvent::ResponseInspected);
    assert!(matches!(state, TunnelState::Pumping { phase: PumpPhase::WritingResponse }));
    state = tunnel_step(state, TunnelEvent::WriteDone { keep_alive: true });
    assert!(matches!(state, TunnelState::Pumping { phase: PumpPhase::ReadingRequest }));
    state = tunnel_step(state, TunnelEvent::ClientGone);
    assert!(matches!(state, TunnelState::Closed));
}

#[test]
fn tunnel_client_abort_is_silent() {
    let state = TunnelState::ClientTlsHandshake { host: b"h".to_vec(), port: 443 };
    assert!(matches!(tunnel_step(state, TunnelEvent::ClientTlsFailed), TunnelState::Closed));
    let state2 = TunnelState::ClientTlsHandshake { host: b"h".to_vec(), port: 443 };
    assert!(matches!(tunnel_step(state2, TunnelEvent::LeafFailed), TunnelState::Closed));
}

#[test]
fn tunnel_handler_panic_gives_500() {
    let state = TunnelState::Pumping { phase: PumpPhase::InspectingRequest };
    let state = tunnel_step(state, TunnelEvent::HandlerPanicked);
    assert!(matches!(state, TunnelState::SendingHandlerError));
    let resp = response_handler_error();
    assert_eq!(
        serialize_response(&resp).as_slice(),
        b"HTTP/1.1 500 Internal Server Error\r\n\r\n".as_slice()
    );
}

#[test]
fn tunnel_bad_request_inside_tunnel() {
    let state = TunnelState::Pumping { phase: PumpPhase::ReadingRequest };
    let state = tunnel_step(state, TunnelEvent::RequestBad);
    assert!(matches!(state, TunnelState::SendingBadRequest));
}

#[test]
fn cache_never_drops_ready_material() {
    let mut cache = CertCache::new(test_root_ca());
    assert!(matches!(cache.get_cert(b"keep.test", NOW).unwrap(), LeafLookup::Mint(_)));
    cache.finish_mint(b"keep.test", b"first-material");
    // Neither an abort nor a late finish touches minted material.
    cache.fail_mint(b"keep.test");
    cache.finish_mint(b"keep.test", b"second-material");
    match cache.get_cert(b"keep.test", NOW).unwrap() {
        LeafLookup::Cached(blob) => assert_eq!(blob.as_slice(), b"first-material".as_slice()),
        _ => panic!("the first mint must stay"),
    }
}

#[test]
fn cache_ignores_unclaimed_finish() {
    let mut cache = CertCache::new(test_root_ca());
    cache.finish_mint(b"ghost.test", b"material");
    assert!(matches!(cache.get_cert(b"ghost.test", NOW).unwrap(), LeafLookup::Mint(_)));
}

#[test]
fn ipv6_literal_recognition() {
    assert!(rudy::ip::is_ipv6_literal_exec(b"::1"));
    assert!(rudy::ip::is_ipv6_literal_exec(b"::"));
    assert!(rudy::ip::is_ipv6_literal_exec(b"fe80::1"));
    assert!(rudy::ip::is_ipv6_literal_exec(b"2001:db8::8a2e:370:7334"));
    assert!(rudy::ip::is_ipv6_literal_exec(b"2001:0db8:0000:0000:0000:8a2e:0370:7334"));
    assert!(rudy::ip::is_ipv6_literal_exec(b"::ffff:192.0.2.1"));
    assert!(rudy::ip::is_ipv6_literal_exec(b"1:2:3:4:5:6:192.0.2.1"));
    assert!(rudy::ip::is_ipv6_literal_exec(b"1::"));
    assert!(!rudy::ip::is_ipv6_literal_exec(b"example.com"));
    assert!(!rudy::ip::is_ipv6_literal_exec(b"1:2:3:4:5:6:7:8:9"));
    assert!(!rudy::ip::is_ipv6_literal_exec(b"1:2:3:4:5:6:7"));
    assert!(!rudy::ip::is_ipv6_literal_exec(b"1::2::3"));
    assert!(!rudy::ip::is_ipv6_literal_exec(b":1:2:3:4:5:6:7"));
    assert!(!rudy::ip::is_ipv6_literal_exec(b"1:2:3:4:5:6:7:"));
    assert!(!rudy::ip::is_ipv6_literal_exec(b":"));
    assert!(!rudy::ip::is_ipv6_literal_exec(b":::"));
    assert!(!rudy::ip::is_ipv6_literal_exec(b"12345::1"));
    assert!(!rudy::ip::is_ipv6_literal_exec(b"g::1"));
    assert!(!rudy::ip::is_ipv6_literal_exec(b""));
}

#[test]
fn ipv6_host_gets_ip_entry() {
    let mut cache = CertCache::new(test_root_ca());
    let params = match cache.get_cert(b"::1", NOW).unwrap() {
        LeafLookup::Mint(p) => p,
        _ => panic!("must mint"),
    };
    match params.san.as_ref().expect("a leaf names its host") {
        SanEntry::Ip(addr) => assert_eq!(addr.as_slice(), b"::1".as_slice()),
        SanEntry::Dns(_) => panic!("an address literal gets an IP entry"),
    }
}

#[test]
fn bracketed_ipv6_authority_is_unwrapped() {
    // CONNECT [2001:db8::1]:443 routes with the bracketed host; the minted
    // leaf names the bare address.
    let (req, _) =
        parse_request(b"CONNECT [2001:db8::1]:443 HTTP/1.1\r\nHost: [2001:db8::1]:443\r\n\r\n")
            .unwrap();
    let host = match classify(&req) {
        Route::Connect { host, port } => {
            assert_eq!(port, 443);
            host
        },
        _ => panic!("must route to the tunnel"),
    };
    assert_eq!(host.as_slice(), b"[2001:db8::1]".as_slice());
    let mut cache = CertCache::new(test_root_ca());
    let params = match cache.get_cert(host.as_slice(), NOW).unwrap() {
        LeafLookup::Mint(p) => p,
        _ => panic!("must mint"),
    };
    assert_eq!(params.subject[0].value.as_slice(), b"2001:db8::1".as_slice());
    match params.san.as_ref().expect("a leaf names its host") {
        SanEntry::Ip(addr) => assert_eq!(addr.as_slice(), b"2001:db8::1".as_slice()),
        SanEntry::Dns(_) => panic!("an address literal gets an IP entry"),
    }
}

#[test]
fn unbracketed_ipv6_connect_token() {
    // CONNECT ::1:443 splits at the last colon: host ::1, port 443.
    let (host, port) = parse_authority(b"::1:443", 443).expect("authority splits");
    assert_eq!(host.as_slice(), b"::1".as_slice());
    assert_eq!(port, 443);
}
