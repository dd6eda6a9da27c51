use vyse::http::{
    assemble_response, content_length, content_length_from, extract_tunnel_id,
    extract_tunnel_id_for_domain, header_end, header_value, headers_complete,
    headers_with_content_length, hostname_only, http_error_response, is_chunked,
    parse_http1_response, request_method, request_path, response_status, tunnel_id_from_headers,
    tunnel_id_from_http_head, tunnel_id_from_http_head_in, HttpError, ResponseHead,
};
use vyse::reader::{
    read_body_after_head, read_until_headers, response_has_body, Framing, HeadStep, HttpReader,
    ReadError, ReadStep, BODY_READ, HEAD_READ, MAX_CHUNKED, MAX_HEAD, MAX_HTTP_BODY,
};

fn read_pieces(reader: HttpReader, pieces: &[&[u8]]) -> Result<Vec<u8>, ReadError> {
    let mut reader = reader;
    for piece in pieces {
        match reader.feed(piece) {
            ReadStep::More(next, _) => reader = next,
            ReadStep::Done(bytes) => return Ok(bytes),
            ReadStep::Failed(e) => return Err(e),
        }
    }
    match reader.feed(b"") {
        ReadStep::Failed(e) => Err(e),
        _ => panic!("the end of the stream ends the reading"),
    }
}

#[test]
fn extracts_from_host_header() {
    let req = b"GET / HTTP/1.1\r\nHost: demo.vyse.dev\r\n\r\n";
    assert_eq!(tunnel_id_from_http_head(req).as_deref(), Some("demo"));
    assert_eq!(request_path(req).as_deref(), Some("/"));
    assert_eq!(request_method(req).as_deref(), Some("GET"));
}

#[test]
fn extracts_from_localhost_host() {
    let req = b"GET / HTTP/1.1\r\nHost: demo.localhost:8080\r\n\r\n";
    assert_eq!(tunnel_id_from_http_head(req).as_deref(), Some("demo"));
}

#[test]
fn override_header_wins() {
    let req = b"GET / HTTP/1.1\r\nHost: localhost:8080\r\nX-Vyse-Tunnel: demo\r\n\r\n";
    assert_eq!(tunnel_id_from_http_head(req).as_deref(), Some("demo"));
}

#[test]
fn extracts_custom_apex_domain() {
    let req = b"GET / HTTP/1.1\r\nHost: demo.vyse.chipling.xyz\r\n\r\n";
    assert_eq!(
        tunnel_id_from_http_head_in(req, Some("vyse.chipling.xyz")).as_deref(),
        Some("demo")
    );
}

#[test]
fn hosts_without_their_port() {
    assert_eq!(hostname_only(" foo.example :80"), "foo.example");
    assert_eq!(hostname_only("foo"), "foo");
    assert_eq!(hostname_only(":80"), "");
}

#[test]
fn hosts_name_tunnels_by_one_label() {
    assert_eq!(extract_tunnel_id("Demo.VYSE.dev").as_deref(), Some("demo"));
    assert_eq!(extract_tunnel_id("demo.vyse.local:1").as_deref(), Some("demo"));
    assert_eq!(extract_tunnel_id("a.b.vyse.dev"), None);
    assert_eq!(extract_tunnel_id(".vyse.dev"), None);
    assert_eq!(extract_tunnel_id("vyse.dev"), None);
    assert_eq!(extract_tunnel_id("demo.example.com"), None);
    assert_eq!(
        extract_tunnel_id_for_domain("demo.example.com:443", Some(" .example.com ")).as_deref(),
        Some("demo")
    );
    assert_eq!(extract_tunnel_id_for_domain("demo.localhost", Some("  ")).as_deref(), Some("demo"));
    assert_eq!(extract_tunnel_id_for_domain("demo.Example.com", Some("Example.com")), None);
}

#[test]
fn override_header_rules() {
    let header = |name: &str, value: &[u8]| (name.to_string(), value.to_vec());
    let blank_then_set = vec![
        header("x-vyse-tunnel", b"  "),
        header("X-VYSE-Tunnel", b" Demo "),
        header("host", b"other.vyse.dev"),
    ];
    assert_eq!(tunnel_id_from_headers(&blank_then_set, None).as_deref(), Some("demo"));
    let not_text = vec![header("x-vyse-tunnel", b"\xff"), header("host", b"demo.vyse.dev")];
    assert_eq!(tunnel_id_from_headers(&not_text, None), None);
    let first_host = vec![header("Host", b"nowhere"), header("host", b"demo.vyse.dev")];
    assert_eq!(tunnel_id_from_headers(&first_host, None), None);
    assert_eq!(tunnel_id_from_headers(&vec![], Some("x")), None);
}

#[test]
fn heads_that_cannot_be_read() {
    assert_eq!(tunnel_id_from_http_head(b"\x00\r\n\r\n"), None);
    assert_eq!(request_path(b"\x00\r\n\r\n"), None);
    assert_eq!(response_status(b"GET / HTTP/1.1\r\n\r\n"), None);
    let mut many = b"GET / HTTP/1.1\r\n".to_vec();
    for _ in 0..64 {
        many.extend_from_slice(b"a: b\r\n");
    }
    let mut too_many = many.clone();
    many.extend_from_slice(b"\r\n");
    too_many.extend_from_slice(b"a: b\r\n\r\n");
    assert_eq!(request_path(&many).as_deref(), Some("/"));
    assert_eq!(request_path(&too_many), None);
}

#[test]
fn headers_of_requests_and_responses() {
    let req = b"POST /x HTTP/1.1\r\nContent-LENGTH:  12 \r\nTransfer-Encoding: gzip, Chunked\r\n\r\n";
    assert_eq!(header_value(req, "content-length").as_deref(), Some("12"));
    assert_eq!(content_length(req), Some(12));
    assert!(is_chunked(req));
    let resp = b"HTTP/1.1 204 No Content\r\nX-Id: 7\r\n\r\n";
    assert_eq!(header_value(resp, "x-id").as_deref(), Some("7"));
    assert_eq!(response_status(resp), Some(204));
    assert_eq!(content_length(resp), None);
    assert!(!is_chunked(resp));
    assert_eq!(content_length(b"GET / HTTP/1.1\r\nContent-Length: x\r\n\r\n"), None);
    assert_eq!(content_length_from(Some("+7".to_string())), Some(7));
    assert_eq!(content_length_from(Some("18446744073709551616".to_string())), None);
    assert_eq!(content_length_from(Some(String::new())), None);
    assert_eq!(content_length_from(None), None);
    let skips = b"GET / HTTP/1.1\r\nA: \xff\r\na: b\r\n\r\n";
    assert_eq!(header_value(skips, "A").as_deref(), Some("b"));
}

#[test]
fn heads_end_at_a_blank_line() {
    assert_eq!(header_end(b"a\r\n\r\nb"), Some(5));
    assert_eq!(header_end(b"a\n\nb"), Some(3));
    assert_eq!(header_end(b"a\n\nb\r\n\r\n"), Some(8));
    assert_eq!(header_end(b"a\r\n\r"), None);
    assert!(headers_complete(b"\n\n"));
    assert!(!headers_complete(b"\n"));
}

#[test]
fn reframed_heads() {
    let head = b"HTTP/1.1 200 OK\r\nTransfer-Encoding: chunked\r\nX: 1\r\ncontent-length : 9\r\n\r\n";
    assert_eq!(
        headers_with_content_length(head, 11).unwrap(),
        b"HTTP/1.1 200 OK\r\nX: 1\r\nContent-Length: 11\r\n\r\n"
    );
    assert_eq!(
        headers_with_content_length(b"HTTP/1.1 200 OK\nTransfer-Encoding: chunked\n\n", 0).unwrap(),
        b"HTTP/1.1 200 OK\nContent-Length: 0\n\n"
    );
    let err = headers_with_content_length(b"HTTP/1.1 200 OK\r\n", 1).unwrap_err();
    assert_eq!(err, HttpError::IncompleteHead);
    assert_eq!(err.message(), "incomplete HTTP headers");
    assert_eq!(
        headers_with_content_length(b"A \xff\r\nTransfer-Encoding: chunked\r\n\r\n", 2).unwrap(),
        "A \u{fffd}\r\nContent-Length: 2\r\n\r\n".as_bytes()
    );
}

#[test]
fn the_last_framing_counts() {
    let head = b"GET /caf\xc3\xa9 HTTP/1.1\r\nHost: a\r\ntransfer-encoding : chunked\r\nX-A: b\r\n\r\n";
    let once = headers_with_content_length(head, 3).unwrap();
    let twice = headers_with_content_length(&once, 70000).unwrap();
    assert_eq!(twice, headers_with_content_length(head, 70000).unwrap());
    assert_eq!(
        String::from_utf8(twice).unwrap(),
        "GET /caf\u{e9} HTTP/1.1\r\nHost: a\r\nX-A: b\r\nContent-Length: 70000\r\n\r\n"
    );
    let latin = b"GET / HTTP/1.1\r\nX: \xe9\r\n\r\n";
    let once = headers_with_content_length(latin, 1).unwrap();
    assert_eq!(
        headers_with_content_length(&once, 2).unwrap(),
        headers_with_content_length(latin, 2).unwrap()
    );
}

#[test]
fn error_responses_are_read_back() {
    for (status, reason, body) in [
        (502u16, "Bad Gateway", "vyse: no\r\n\r\nblank line hides\n\nhere\n"),
        (100, "", ""),
        (999, "caf\u{e9} ~ ok", "\u{20ac}"),
    ] {
        let parsed = parse_http1_response(&http_error_response(status, reason, body)).unwrap();
        assert_eq!(parsed.status, status);
        assert_eq!(parsed.body, body.as_bytes());
        let headers: Vec<(&str, &str)> =
            parsed.headers.iter().map(|(n, v)| (n.as_str(), v.as_str())).collect();
        let length = body.len().to_string();
        assert_eq!(
            headers,
            vec![
                ("Content-Type", "text/plain; charset=utf-8"),
                ("Content-Length", length.as_str()),
                ("Connection", "close"),
            ]
        );
    }
}

#[test]
fn plain_heads_are_read_by_their_lines() {
    let head = "PUT /a?b=c%20\u{e9} HTTP/1.0\r\nX-Wide:   a  b   \r\nx_y.z~:\u{a0}caf\u{e9}\u{a0}\r\nEmpty:\r\nHost: demo.vyse.dev\r\n\r\nHost: other.vyse.dev\r\n\r\n";
    let head = head.as_bytes();
    assert_eq!(request_method(head).as_deref(), Some("PUT"));
    assert_eq!(request_path(head).as_deref(), Some("/a?b=c%20\u{e9}"));
    assert_eq!(header_value(head, "x-wide").as_deref(), Some("a  b"));
    assert_eq!(header_value(head, "X_Y.Z~").as_deref(), Some("caf\u{e9}"));
    assert_eq!(header_value(head, "empty").as_deref(), Some(""));
    assert_eq!(tunnel_id_from_http_head(head).as_deref(), Some("demo"));
    assert_eq!(response_status(head), None);
    let reply = b"HTTP/1.0 007\r\nA: b\r\n\r\n";
    assert_eq!(response_status(reply), Some(7));
    assert_eq!(header_value(reply, "a").as_deref(), Some("b"));
    assert_eq!(request_method(reply), None);
    let parsed = parse_http1_response(b"HTTP/1.1 200 OK\r\nA:  b c \r\n\r\n").unwrap();
    assert_eq!(parsed.headers, vec![("A".to_string(), "b c".to_string())]);
}

#[test]
fn heads_with_a_bad_line_are_not_read() {
    for bad in [
        &b"GET /\xe9 HTTP/1.1\r\nA: b\r\n\r\n"[..],
        b"GET  / HTTP/1.1\r\nA: b\r\n\r\n",
        b"GET / HTTP/1.2\r\nA: b\r\n\r\n",
        b"GET / HTTP/1.1 \r\nA: b\r\n\r\n",
        b"GET / HTTP/1.1\r\nA : b\r\n\r\n",
        b"GET / HTTP/1.1\r\nA: b\r\n c\r\n\r\n",
        b"GET / HTTP/1.1\r\nA: b\rc\r\n\r\n",
        b"GET / HTTP/1.1\r\nA: b\r\nB: \x7f\r\n\r\n",
        b"G\tET / HTTP/1.1\r\nA: b\r\n\r\n",
        b"HTTP/1.1 20 OK\r\nA: b\r\n\r\n",
        b"HTTP/1.1 2000\r\nA: b\r\n\r\n",
        b"HTTP/1.1 200 \x01\r\nA: b\r\n\r\n",
    ] {
        assert_eq!(header_value(bad, "a"), None);
        assert_eq!(request_method(bad), None);
        assert_eq!(response_status(bad), None);
    }
    let value = b"GET / HTTP/1.1\r\nA: \t b\t\xc3\xa9 \t\r\n\r\n";
    assert_eq!(header_value(value, "a").as_deref(), Some("b\t\u{e9}"));
    assert_eq!(response_status(b"HTTP/1.1 204 \tno\xe9\r\n\r\n"), Some(204));
}

#[test]
fn heads_have_room_for_so_many_headers() {
    let with = |n: usize| {
        let lines: String = (0..n).map(|i| format!("X-{i}: {i}\r\n")).collect();
        format!("GET / HTTP/1.1\r\n{lines}\r\n").into_bytes()
    };
    assert_eq!(header_value(&with(64), "x-63").as_deref(), Some("63"));
    assert_eq!(header_value(&with(65), "x-0"), None);
}

#[test]
fn finished_messages_are_whole() {
    let chunked: &[u8] =
        b"POST /x HTTP/1.1\r\nHost: a\r\nTransfer-Encoding: gzip, Chunked\r\nContent-Length: 3\r\n\r\n5\r\nhello\r\n0\r\n\r\nGET";
    let sized: &[u8] = b"POST /x HTTP/1.1\r\nHost: a\r\ncontent-length: 4\r\n\r\npingGET";
    let bare: &[u8] = b"GET / HTTP/1.1\r\nHost: a\r\n\r\nGET";
    let latin: &[u8] = b"POST / HTTP/1.1\r\nX:\t\xe9\tq\r\nContent-Length: 2\r\n\r\nokX: y\r\n\r\n";
    let broken: &[u8] = b"POST / HTTP/1.1\r\nbad line\r\nContent-Length: 2\r\n\r\nok\r\n\r\n";
    let odd: &[u8] =
        b"POST /\xc3\xa9 HTTP/1.1\r\nX:\t\xe9\xff\tq\xf0\x90\r\nTransfer-Encoding:\tchunked\t\r\n\r\n3\r\nabc\r\n0\r\n\r\n";
    for (message, body) in
        [(chunked, 5usize), (sized, 4), (bare, 0), (latin, 2), (broken, 0), (odd, 3)]
    {
        let whole = read_pieces(HttpReader::request(), &[message]).unwrap();
        assert!(!is_chunked(&whole));
        assert_eq!(content_length(&whole).unwrap_or(0), body);
        assert_eq!(whole.len(), header_end(&whole).unwrap() + body);
        for cut in 1..message.len() {
            let (first, second) = message.split_at(cut);
            assert_eq!(read_pieces(HttpReader::request(), &[first, second]).unwrap(), whole);
        }
    }
    let many: String = (0..63).map(|i| format!("X-{i}: y\r\n")).collect();
    let full = format!("POST / HTTP/1.1\r\n{many}Transfer-Encoding: chunked\r\n\r\n0\r\n\r\n");
    let whole = read_pieces(HttpReader::request(), &[full.as_bytes()]).unwrap();
    assert_eq!(content_length(&whole), Some(0));
    assert_eq!(header_value(&whole, "x-62").as_deref(), Some("y"));
}

#[test]
fn error_responses() {
    assert_eq!(
        http_error_response(404, "Not Found", "caf\u{e9}\n"),
        "HTTP/1.1 404 Not Found\r\nContent-Type: text/plain; charset=utf-8\r\nContent-Length: 6\r\nConnection: close\r\n\r\ncaf\u{e9}\n".as_bytes()
    );
    let parsed = parse_http1_response(&http_error_response(502, "Bad Gateway", "x")).unwrap();
    assert_eq!(parsed.status, 502);
    assert_eq!(parsed.body, b"x");
}

#[test]
fn parse_response() {
    let raw = b"HTTP/1.1 201 Created\r\nX-Id: 1\r\nContent-Length: 2\r\n\r\nok";
    let parsed = parse_http1_response(raw).unwrap();
    assert_eq!(parsed.status, 201);
    assert_eq!(parsed.body, b"ok");
}

#[test]
fn parsed_responses_keep_their_headers() {
    let raw = b"HTTP/1.1 201 Created\r\nX-Id: 1\r\nX-Raw: \xff\r\n\r\n";
    let parsed = parse_http1_response(raw).unwrap();
    assert_eq!(
        parsed.headers,
        vec![
            ("X-Id".to_string(), "1".to_string()),
            ("X-Raw".to_string(), "\u{fffd}".to_string())
        ]
    );
    assert!(parsed.body.is_empty());
}

#[test]
fn responses_that_cannot_be_parsed() {
    let err = parse_http1_response(b"HTTP/1.1 200 OK\r\n").err().unwrap();
    assert_eq!(err, HttpError::ResponseHeadIncomplete);
    assert_eq!(err.message(), "HTTP response headers incomplete");
    let err = parse_http1_response(b"nonsense\r\n\r\n").err().unwrap();
    assert_eq!(err, HttpError::StatusMissing);
    assert_eq!(err.message(), "HTTP response status missing");
}

#[test]
fn responses_assembled_from_their_parts() {
    let head = ResponseHead {
        code: Some(299),
        headers: vec![
            ("a".to_string(), b"1".to_vec()),
            (String::new(), Vec::new()),
        ],
    };
    let parsed = assemble_response(b"x\n\nbody", Some(head)).ok().unwrap();
    assert_eq!(parsed.status, 299);
    assert_eq!(parsed.headers, vec![("a".to_string(), "1".to_string())]);
    assert_eq!(parsed.body, b"body");
    let no_code = ResponseHead { code: None, headers: Vec::new() };
    assert_eq!(assemble_response(b"x\n\n", Some(no_code)).err(), Some(HttpError::StatusMissing));
    assert_eq!(assemble_response(b"x\n\n", None).err(), Some(HttpError::StatusMissing));
    assert_eq!(assemble_response(b"x\n", None).err(), Some(HttpError::ResponseHeadIncomplete));
}

#[test]
fn reads_chunked_response() {
    let raw = read_pieces(
        HttpReader::response("GET"),
        &[b"HTTP/1.1 200 OK\r\nTransfer-Encoding: chunked\r\n\r\n\
5\r\nhello\r\n6\r\n world\r\n0\r\n\r\n"],
    )
    .unwrap();
    let parsed = parse_http1_response(&raw).unwrap();
    assert_eq!(parsed.status, 200);
    assert_eq!(parsed.body, b"hello world");
    assert_eq!(content_length(&raw), Some(11));
    assert!(!is_chunked(&raw));
}

#[test]
fn reads_chunked_with_extensions_and_trailers() {
    let raw = read_pieces(
        HttpReader::response("GET"),
        &[b"HTTP/1.1 200 OK\r\nTransfer-Encoding: chunked\r\n\r\n\
4;ext=1\r\nping\r\n0\r\nX-Trailer: yes\r\n\r\n"],
    )
    .unwrap();
    assert_eq!(parse_http1_response(&raw).unwrap().body, b"ping");
}

#[test]
fn head_ignores_chunked_body() {
    let raw = read_pieces(
        HttpReader::response("HEAD"),
        &[b"HTTP/1.1 200 OK\r\nTransfer-Encoding: chunked\r\n\r\n"],
    )
    .unwrap();
    assert_eq!(response_status(&raw), Some(200));
    let end = header_end(&raw).unwrap();
    assert_eq!(raw.len(), end);
}

#[test]
fn chunked_bodies_may_come_byte_by_byte() {
    let message = b"POST / HTTP/1.1\r\nTransfer-Encoding: chunked\r\n\r\nA\r\n0123456789\r\n0\r\n\r\n";
    let pieces: Vec<&[u8]> = message.chunks(1).collect();
    assert_eq!(
        read_pieces(HttpReader::request(), &pieces).unwrap(),
        b"POST / HTTP/1.1\r\nContent-Length: 10\r\n\r\n0123456789"
    );
}

#[test]
fn sized_bodies_are_cut_at_their_length() {
    let message: &[u8] = b"POST / HTTP/1.1\r\nContent-Length: 4\r\n\r\npingGET";
    assert_eq!(
        read_pieces(HttpReader::request(), &[message]).unwrap(),
        b"POST / HTTP/1.1\r\nContent-Length: 4\r\n\r\nping"
    );
    match HttpReader::request().feed(&message[..message.len() - 5]) {
        ReadStep::More(reader, limit) => {
            assert_eq!(limit, 2);
            assert!(matches!(reader.feed(b"ng"), ReadStep::Done(_)));
        }
        _ => panic!("the body is not complete"),
    }
    match HttpReader::request().feed(b"POST / HTTP/1.1\r\nContent-Length: 99999\r\n\r\n") {
        ReadStep::More(_, limit) => assert_eq!(limit, BODY_READ),
        _ => panic!("the body is not complete"),
    }
    match HttpReader::request().feed(b"GET") {
        ReadStep::More(_, limit) => assert_eq!(limit, HEAD_READ),
        _ => panic!("the head is not complete"),
    }
}

#[test]
fn responses_without_a_body() {
    assert!(response_has_body("GET", Some(200)));
    assert!(response_has_body("GET", None));
    assert!(!response_has_body("HEAD", Some(200)));
    assert!(!response_has_body("GET", Some(204)));
    assert!(!response_has_body("GET", Some(304)));
    assert!(!response_has_body("GET", Some(100)));
    assert!(!response_has_body("GET", Some(199)));
    assert_eq!(
        read_pieces(
            HttpReader::response("GET"),
            &[b"HTTP/1.1 204 No Content\r\nContent-Length: 3\r\n\r\nabc"]
        )
        .unwrap(),
        b"HTTP/1.1 204 No Content\r\nContent-Length: 3\r\n\r\n"
    );
}

#[test]
fn broken_streams() {
    let cases: Vec<(&[u8], ReadError, &str)> = vec![
        (b"GET / HT", ReadError::ClosedInHead, "connection closed before HTTP headers completed"),
        (
            b"GET / HTTP/1.1\r\nContent-Length: 4\r\n\r\nab",
            ReadError::ClosedInBody,
            "connection closed before HTTP body completed",
        ),
        (
            b"GET / HTTP/1.1\r\nTransfer-Encoding: chunked\r\n\r\n5\r\nhel",
            ReadError::ClosedInBody,
            "connection closed before HTTP body completed",
        ),
        (
            b"GET / HTTP/1.1\r\nTransfer-Encoding: chunked\r\n\r\n\xff\r\n",
            ReadError::ChunkLine,
            "chunk size line",
        ),
        (
            b"GET / HTTP/1.1\r\nTransfer-Encoding: chunked\r\n\r\nxyz\r\n",
            ReadError::ChunkSize,
            "invalid chunk size",
        ),
        (
            b"GET / HTTP/1.1\r\nTransfer-Encoding: chunked\r\n\r\n1\r\nabcd",
            ReadError::MissingCrlf,
            "missing CRLF after chunk data",
        ),
    ];
    for (stream, error, message) in cases {
        let err = read_pieces(HttpReader::request(), &[stream]).unwrap_err();
        assert_eq!(err, error);
        assert_eq!(err.message(), message);
    }
}

#[test]
fn streams_that_are_too_long() {
    let long = vec![b'a'; MAX_HEAD + 1];
    let err = read_pieces(HttpReader::request(), &[&long]).unwrap_err();
    assert_eq!(err, ReadError::HeadTooLarge);
    assert_eq!(err.message(), "HTTP headers too large");
    match read_until_headers(Vec::new(), &long[1..]) {
        HeadStep::More(buf) => assert_eq!(buf.len(), MAX_HEAD),
        _ => panic!("a head of the largest size may go on"),
    }

    let mut body = b"GET / HTTP/1.1\r\nTransfer-Encoding: chunked\r\n\r\n2000001\r\n".to_vec();
    let head = body.len();
    body.resize(head + MAX_HTTP_BODY + 1, b'x');
    body.extend_from_slice(b"\r\n");
    let err = read_pieces(HttpReader::request(), &[&body]).unwrap_err();
    assert_eq!(err, ReadError::BodyTooLarge);
    assert_eq!(err.message(), "HTTP body too large");

    let start: &[u8] = b"GET / HTTP/1.1\r\nTransfer-Encoding: chunked\r\n\r\n";
    let endless = vec![b'1'; MAX_CHUNKED + 1];
    let err = read_pieces(HttpReader::request(), &[start, &endless]).unwrap_err();
    assert_eq!(err, ReadError::BodyTooLarge);
}

#[test]
fn huge_chunk_sizes_wait_for_more() {
    let start: &[u8] = b"GET / HTTP/1.1\r\nTransfer-Encoding: chunked\r\n\r\nffffffffffffffff\r\nab";
    assert!(matches!(HttpReader::request().feed(start), ReadStep::More(_, BODY_READ)));
}

#[test]
fn bodies_behind_a_given_framing() {
    let buf = b"HEAD\r\n\r\nbody".to_vec();
    assert!(matches!(read_body_after_head(buf.clone(), Framing::NoBody), ReadStep::Done(b) if b == b"HEAD\r\n\r\n"));
    assert!(matches!(read_body_after_head(buf.clone(), Framing::Length(2)), ReadStep::Done(b) if b == b"HEAD\r\n\r\nbo"));
    assert!(matches!(read_body_after_head(buf, Framing::Length(6)), ReadStep::More(_, 2)));
    match read_body_after_head(b"HEAD\r\n".to_vec(), Framing::NoBody) {
        ReadStep::Failed(e) => {
            assert_eq!(e, ReadError::IncompleteHead);
            assert_eq!(e.message(), "incomplete HTTP headers");
        }
        _ => panic!("there is no head"),
    }
    match read_body_after_head(b"A\r\n\r\n2\r\nab\r\n0\r\n\r\nrest".to_vec(), Framing::Chunked) {
        ReadStep::Done(bytes) => assert_eq!(bytes, b"A\r\nContent-Length: 2\r\n\r\nab"),
        _ => panic!("the body is complete"),
    }
}
