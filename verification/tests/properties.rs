use rhymuweb::chunked_body::parse_chunk_size;
use rhymuweb::coding::split_at;
use rhymuweb::request::{ParseStatus, Request};
use rhymuweb::response::parse_status_line;
use rhymuweb::response::ParseStatus as RespParseStatus;
use rhymuweb::{find_crlf, Error, Response};

#[test]
fn request_round_trip_preserves_the_message() {
    let raw_request = "POST /hello.txt HTTP/1.1\r\nHost: www.example.com\r\nContent-Type: text/plain\r\nContent-Length: 5\r\n\r\nabcde";
    let mut request = Request::new();
    let results = request.parse(raw_request.as_bytes()).unwrap();
    assert_eq!(ParseStatus::Complete, results.status);
    let generated = request.generate().unwrap();
    assert_eq!(raw_request.as_bytes(), generated.as_slice());
    let mut reparsed = Request::new();
    let results = reparsed.parse(&generated).unwrap();
    assert_eq!(ParseStatus::Complete, results.status);
    assert_eq!(results.consumed, generated.len());
    assert_eq!(request.method, reparsed.method);
    assert_eq!(request.target, reparsed.target);
    assert_eq!(request.headers.headers(), reparsed.headers.headers());
    assert_eq!(request.body, reparsed.body);
}

#[test]
fn response_round_trip_preserves_the_message() {
    let raw_response = "HTTP/1.1 404 Not Found\r\nContent-Type: text/plain\r\nContent-Length: 2\r\n\r\nhi";
    let mut response = Response::new();
    let results = response.parse(raw_response.as_bytes()).unwrap();
    assert_eq!(RespParseStatus::Complete, results.status);
    let generated = response.generate().unwrap();
    assert_eq!(raw_response.as_bytes(), generated.as_slice());
    let mut reparsed = Response::new();
    let results = reparsed.parse(&generated).unwrap();
    assert_eq!(RespParseStatus::Complete, results.status);
    assert_eq!(results.consumed, generated.len());
    assert_eq!(response.status_code, reparsed.status_code);
    assert_eq!(response.reason_phrase, reparsed.reason_phrase);
    assert_eq!(response.headers.headers(), reparsed.headers.headers());
    assert_eq!(response.body, reparsed.body);
}

#[test]
fn request_parsed_one_byte_at_a_time_equals_parsed_whole() {
    let raw_request = "POST / HTTP/1.1\r\nHost: foo.com\r\nContent-Length: 13\r\n\r\nsay=Hi&to=Mom";
    let bytes = raw_request.as_bytes();

    let mut whole = Request::new();
    let whole_results = whole.parse(bytes).unwrap();
    assert_eq!(ParseStatus::Complete, whole_results.status);
    assert_eq!(bytes.len(), whole_results.consumed);

    let mut piecemeal = Request::new();
    let mut accepted = 0;
    let mut completed = false;
    for i in 0..bytes.len() {
        let results = piecemeal.parse(&bytes[accepted..=i]).unwrap();
        accepted += results.consumed;
        if results.status == ParseStatus::Complete {
            completed = true;
            assert_eq!(i + 1, bytes.len());
        }
    }
    assert!(completed);
    assert_eq!(bytes.len(), accepted);
    assert_eq!(whole.method, piecemeal.method);
    assert_eq!(whole.target, piecemeal.target);
    assert_eq!(whole.headers.headers(), piecemeal.headers.headers());
    assert_eq!(whole.body, piecemeal.body);
}

#[test]
fn chunked_response_parsed_one_byte_at_a_time_equals_parsed_whole() {
    let raw_response = "HTTP/1.1 200 OK\r\nTransfer-Encoding: chunked\r\nTrailer: X-Foo\r\n\r\n5\r\nHello\r\n0\r\nX-Foo: Bar\r\n\r\n";
    let bytes = raw_response.as_bytes();

    let mut whole = Response::new();
    let whole_results = whole.parse(bytes).unwrap();
    assert_eq!(RespParseStatus::Complete, whole_results.status);
    assert_eq!(bytes.len(), whole_results.consumed);

    let mut piecemeal = Response::new();
    let mut accepted = 0;
    let mut completed = false;
    for i in 0..bytes.len() {
        let results = piecemeal.parse(&bytes[accepted..=i]).unwrap();
        accepted += results.consumed;
        if results.status == RespParseStatus::Complete {
            completed = true;
            assert_eq!(i + 1, bytes.len());
        }
    }
    assert!(completed);
    assert_eq!(bytes.len(), accepted);
    assert_eq!(whole.status_code, piecemeal.status_code);
    assert_eq!(whole.headers.headers(), piecemeal.headers.headers());
    assert_eq!(b"Hello", piecemeal.body.as_slice());
    assert_eq!(Some("5"), piecemeal.headers.header_value("Content-Length").as_deref());
}

#[test]
fn chunked_response_with_trailing_bytes_consumes_only_the_message() {
    let raw_response = "HTTP/1.1 200 OK\r\nTransfer-Encoding: chunked\r\n\r\n5\r\nHello\r\n0\r\n\r\n";
    let with_junk = String::from(raw_response) + "HTTP/1.1 404 Not Found\r\n";
    let mut response = Response::new();
    let results = response.parse(with_junk.as_bytes()).unwrap();
    assert_eq!(RespParseStatus::Complete, results.status);
    assert_eq!(raw_response.len(), results.consumed);
    assert_eq!(b"Hello", response.body.as_slice());
}

#[test]
fn parse_chunk_size_reads_hexadecimal() {
    assert!(matches!(parse_chunk_size("1f"), Ok(0x1f)));
    assert!(matches!(parse_chunk_size("1F"), Ok(0x1f)));
    assert!(matches!(parse_chunk_size("0"), Ok(0)));
    assert!(matches!(parse_chunk_size("c;name=value"), Ok(12)));
    assert!(matches!(parse_chunk_size("10\r"), Ok(16)));
    assert!(matches!(parse_chunk_size(""), Err(Error::InvalidChunkSize(_))));
    assert!(matches!(parse_chunk_size(";ext"), Err(Error::InvalidChunkSize(_))));
    assert!(matches!(parse_chunk_size("0g"), Err(Error::InvalidChunkSize(_))));
}

#[test]
fn parse_status_line_reads_code_and_reason() {
    assert!(matches!(
        parse_status_line("HTTP/1.1 200 OK"),
        Ok((200, reason)) if reason == "OK"
    ));
    assert!(matches!(
        parse_status_line("HTTP/1.1 404 Not Found"),
        Ok((404, reason)) if reason == "Not Found"
    ));
    assert!(matches!(
        parse_status_line("HTTP/1.1 999 "),
        Ok((999, reason)) if reason.is_empty()
    ));
    assert!(matches!(
        parse_status_line("HTTP/1.1 1000 Whoa"),
        Err(Error::StatusCodeOutOfRange(1000))
    ));
    assert!(matches!(
        parse_status_line("HTTP/1.0 200 OK"),
        Err(Error::StatusLineProtocol(_))
    ));
    assert!(matches!(
        parse_status_line("HTTP/1.1"),
        Err(Error::StatusLineNoProtocolDelimiter(_))
    ));
}

#[test]
fn find_crlf_finds_the_first_pair() {
    assert_eq!(Some(3), find_crlf(b"abc\r\ndef\r\n"));
    assert_eq!(Some(0), find_crlf(b"\r\n"));
    assert_eq!(None, find_crlf(b"abc\rdef\nghi"));
    assert_eq!(None, find_crlf(b"\r"));
    assert_eq!(None, find_crlf(b""));
}

#[test]
fn split_at_splits_at_the_first_delimiter() {
    assert!(matches!(
        split_at("text/plain", '/'),
        Some(("text", "plain"))
    ));
    assert!(matches!(
        split_at("charset=utf-8=x", '='),
        Some(("charset", "utf-8=x"))
    ));
    assert!(matches!(split_at("no delimiter here", '/'), None));
}

#[test]
fn parse_invalid_status_code_overflow() {
    let raw_response = "HTTP/1.1 99999999999999999999999999 OK\r\n";
    let mut response = Response::new();
    assert!(matches!(
        response.parse(raw_response.as_bytes()),
        Err(Error::InvalidStatusCode(_))
    ));
}

#[test]
fn request_status_after_error_is_reported_once() {
    let raw_request = "GET /hello.txt BOGUS\r\n\r\n";
    let mut request = Request::new();
    assert!(matches!(
        request.parse(raw_request.as_bytes()),
        Err(Error::RequestLineProtocol(_))
    ));
}

#[test]
fn request_invalid_target_uri_is_rejected() {
    let raw_request = "GET http://%zz HTTP/1.1\r\n\r\n";
    let mut request = Request::new();
    assert!(matches!(
        request.parse(raw_request.as_bytes()),
        Err(Error::RequestTargetUriInvalid(_))
    ));
}

#[test]
fn request_line_not_text_is_rejected() {
    let mut raw_request: Vec<u8> = Vec::new();
    raw_request.extend_from_slice(b"GET /\xff\xfe HTTP/1.1\r\n\r\n");
    let mut request = Request::new();
    assert!(matches!(
        request.parse(&raw_request),
        Err(Error::RequestLineNotValidText(_))
    ));
}

#[test]
fn chunk_size_line_not_text_is_rejected() {
    let raw_response = "HTTP/1.1 200 OK\r\nTransfer-Encoding: chunked\r\n\r\n";
    let mut with_bad_chunk: Vec<u8> = raw_response.as_bytes().to_vec();
    with_bad_chunk.extend_from_slice(b"5\xff\r\nHello\r\n0\r\n\r\n");
    let mut response = Response::new();
    assert!(matches!(
        response.parse(&with_bad_chunk),
        Err(Error::ChunkSizeLineNotValidText(_))
    ));
}

#[test]
fn empty_input_consumes_nothing() {
    let mut request = Request::new();
    let results = request.parse(b"").unwrap();
    assert_eq!(ParseStatus::Incomplete, results.status);
    assert_eq!(0, results.consumed);
    let mut response = Response::new();
    let results = response.parse(b"").unwrap();
    assert_eq!(RespParseStatus::Incomplete, results.status);
    assert_eq!(0, results.consumed);
}

#[test]
fn duplicate_content_length_headers_are_rejected() {
    let raw_request = "POST / HTTP/1.1\r\nContent-Length: 5\r\nContent-Length: 5\r\n\r\nabcde";
    let mut request = Request::new();
    assert!(matches!(
        request.parse(raw_request.as_bytes()),
        Err(Error::InvalidContentLength(value)) if value == "5,5"
    ));
}
