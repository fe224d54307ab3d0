use rhymessage::Header;
use rhymuweb::response::{ParseResults, ParseStatus};
use rhymuweb::{Error, Response};

#[test]
fn generate_get_response() {
    let mut response = Response::new();
    response.status_code = 200;
    response.reason_phrase = "OK".into();
    response.headers.add_header(Header {
        name: "Date".into(),
        value: "Mon, 27 Jul 2009 12:28:53 GMT".into(),
    });
    response.headers.add_header(Header {
        name: "Accept-Ranges".into(),
        value: "bytes".into(),
    });
    response.headers.add_header(Header {
        name: "Content-Type".into(),
        value: "text/plain".into(),
    });
    response.body = "Hello World! My payload includes a trailing CRLF.\r\n".into();
    response.headers.add_header(Header {
        name: "Content-Length".into(),
        value: format!("{}", response.body.len()),
    });
    assert!(matches!(
        response.generate(),
        Ok(raw_response) if raw_response == format!(
            "HTTP/1.1 200 OK\r\nDate: Mon, 27 Jul 2009 12:28:53 GMT\r\nAccept-Ranges: bytes\r\nContent-Type: text/plain\r\nContent-Length: {}\r\n\r\nHello World! My payload includes a trailing CRLF.\r\n",
            response.body.len()
        ).as_bytes()
    ));
}

#[test]
fn parse_get_response_with_body_and_content_length() {
    let raw_response = "HTTP/1.1 200 OK\r\nDate: Mon, 27 Jul 2009 12:28:53 GMT\r\nServer: Apache\r\nLast-Modified: Wed, 22 Jul 2009 19:15:56 GMT\r\nETag: \"34aa387-d-1568eb00\"\r\nAccept-Ranges: bytes\r\nContent-Length: 51\r\nVary: Accept-Encoding\r\nContent-Type: text/plain\r\n\r\nHello World! My payload includes a trailing CRLF.\r\n";
    let mut response = Response::new();
    assert!(matches!(
        response.parse(raw_response.as_bytes()),
        Ok(ParseResults{
            status: ParseStatus::Complete,
            consumed
        }) if consumed == raw_response.len()
    ));
    assert_eq!(200, response.status_code);
    assert_eq!("OK", response.reason_phrase);
    assert!(response.headers.has_header("Date"));
    assert_eq!(
        Some("Mon, 27 Jul 2009 12:28:53 GMT"),
        response.headers.header_value("Date").as_deref()
    );
    assert!(response.headers.has_header("Accept-Ranges"));
    assert_eq!(
        Some("bytes"),
        response.headers.header_value("Accept-Ranges").as_deref()
    );
    assert!(response.headers.has_header("Content-Type"));
    assert_eq!(
        Some("text/plain"),
        response.headers.header_value("Content-Type").as_deref()
    );
    assert!(response.headers.has_header("Content-Length"));
    assert_eq!(
        Some("51"),
        response.headers.header_value("Content-Length").as_deref()
    );
    assert_eq!(
        "Hello World! My payload includes a trailing CRLF.\r\n".as_bytes(),
        response.body
    );
}

#[test]
fn parse_get_response_with_chunked_body_no_other_transfer_coding() {
    let raw_response = "HTTP/1.1 200 OK\r\nDate: Mon, 27 Jul 2009 12:28:53 GMT\r\nServer: Apache\r\nLast-Modified: Wed, 22 Jul 2009 19:15:56 GMT\r\nETag: \"34aa387-d-1568eb00\"\r\nAccept-Ranges: bytes\r\nTransfer-Encoding: chunked\r\nVary: Accept-Encoding\r\nContent-Type: text/plain\r\nTrailer: X-Foo\r\n\r\nC\r\nHello World!\r\n16\r\n My payload includes a\r\n11\r\n trailing CRLF.\r\n\r\n0\r\nX-Foo: Bar\r\n\r\n";
    let mut response = Response::new();
    assert!(matches!(
        response.parse(raw_response.as_bytes()),
        Ok(ParseResults{
            status: ParseStatus::Complete,
            consumed
        }) if consumed == raw_response.len()
    ));
    assert_eq!(200, response.status_code);
    assert_eq!("OK", response.reason_phrase);
    assert!(response.headers.has_header("Date"));
    assert_eq!(
        Some("Mon, 27 Jul 2009 12:28:53 GMT"),
        response.headers.header_value("Date").as_deref()
    );
    assert!(response.headers.has_header("Accept-Ranges"));
    assert_eq!(
        Some("bytes"),
        response.headers.header_value("Accept-Ranges").as_deref()
    );
    assert!(response.headers.has_header("Content-Type"));
    assert_eq!(
        Some("text/plain"),
        response.headers.header_value("Content-Type").as_deref()
    );
    assert_eq!(
        Some("Bar"),
        response.headers.header_value("X-Foo").as_deref()
    );
    assert_eq!(
        Some("51"),
        response.headers.header_value("Content-Length").as_deref()
    );
    assert_eq!(
        "Hello World! My payload includes a trailing CRLF.\r\n".as_bytes(),
        response.body
    );
    assert!(!response.headers.has_header_token("Transfer-Encoding", "chunked"));
    assert!(!response.headers.has_header("Trailer"));
    assert!(!response.headers.has_header("Transfer-Encoding"));
    assert_eq!(
        "Hello World! My payload includes a trailing CRLF.\r\n".as_bytes(),
        response.body
    );
}

#[test]
fn parse_get_response_with_chunked_body_with_other_transfer_coding() {
    let raw_response = "HTTP/1.1 200 OK\r\nDate: Mon, 27 Jul 2009 12:28:53 GMT\r\nTransfer-Encoding: foobar, chunked\r\nContent-Type: text/plain\r\n\r\n0\r\n\r\n";
    let mut response = Response::new();
    assert!(matches!(
        response.parse(raw_response.as_bytes()),
        Ok(ParseResults{
            status: ParseStatus::Complete,
            consumed
        }) if consumed == raw_response.len()
    ));
    assert_eq!(
        Some("foobar"),
        response.headers.header_value("Transfer-Encoding").as_deref()
    );
}

#[test]
fn parse_incomplete_body_response() {
    let raw_response = "HTTP/1.1 200 OK\r\nDate: Mon, 27 Jul 2009 12:28:53 GMT\r\nServer: Apache\r\nLast-Modified: Wed, 22 Jul 2009 19:15:56 GMT\r\nETag: \"34aa387-d-1568eb00\"\r\nAccept-Ranges: bytes\r\nContent-Length: 52\r\nVary: Accept-Encoding\r\nContent-Type: text/plain\r\n\r\nHello World! My payload includes a trailing CRLF.\r\n";
    let mut response = Response::new();
    assert!(matches!(
        response.parse(raw_response.as_bytes()),
        Ok(ParseResults{
            status: ParseStatus::Incomplete,
            consumed
        }) if consumed == raw_response.len()
    ));
}

#[test]
fn parse_incomplete_headers_between_lines_response() {
    let raw_response_first_part = "HTTP/1.1 200 OK\r\nDate: Mon, 27 Jul 2009 12:28:53 GMT\r\nServer: Apache\r\nLast-Modified: Wed, 22 Jul 2009 19:15:56 GMT\r\n";
    let raw_response = String::from(raw_response_first_part) + "ETag: \"34aa387-d-1568eb00\"\r\n";
    let mut response = Response::new();
    assert!(matches!(
        response.parse(raw_response.as_bytes()),
        Ok(ParseResults{
            status: ParseStatus::Incomplete,
            consumed
        }) if consumed == raw_response_first_part.len()
    ));
}

#[test]
fn parse_incomplete_headers_mid_line_response() {
    let raw_response_first_part = "HTTP/1.1 200 OK\r\nDate: Mon, 27 Jul 2009 12:28:53 GMT\r\n";
    let raw_response = String::from(raw_response_first_part)
        + "Server: Apache\r\n"
        + "Last-Modified: Wed, 22 Ju";
    let mut response = Response::new();
    assert!(matches!(
        response.parse(raw_response.as_bytes()),
        Ok(ParseResults{
            status: ParseStatus::Incomplete,
            consumed
        }) if consumed == raw_response_first_part.len()
    ));
}

#[test]
fn parse_incomplete_status_line() {
    let raw_response = "HTTP/1.1 200 OK\r";
    let mut response = Response::new();
    assert!(matches!(
        response.parse(raw_response.as_bytes()),
        Ok(ParseResults{
            status: ParseStatus::Incomplete,
            consumed: 0
        })
    ));
}

#[test]
fn parse_no_headers_response() {
    let raw_response = "HTTP/1.1 200 OK\r\n";
    let mut response = Response::new();
    assert!(matches!(
        response.parse(raw_response.as_bytes()),
        Ok(ParseResults{
            status: ParseStatus::Incomplete,
            consumed
        }) if consumed == raw_response.len()
    ));
}

#[test]
fn parse_invalid_response_no_protocol() {
    let raw_response = " 200 OK\r\n";
    let mut response = Response::new();
    assert!(matches!(
        response.parse(raw_response.as_bytes()),
        Err(Error::StatusLineProtocol(line)) if line == " 200 OK"
    ));
}

#[test]
fn parse_invalid_response_no_status_code() {
    let raw_response = "HTTP/1.1  OK\r\n";
    let mut response = Response::new();
    assert!(matches!(
        response.parse(raw_response.as_bytes()),
        Err(Error::InvalidStatusCode(_))
    ));
}

#[test]
fn parse_invalid_response_no_reason_phrase() {
    let raw_response = "HTTP/1.1 200\r\n";
    let mut response = Response::new();
    assert!(matches!(
        response.parse(raw_response.as_bytes()),
        Err(Error::StatusLineNoStatusCodeDelimiter(line))
            if line == "HTTP/1.1 200"
    ));
}

#[test]
fn response_parse_invalid_damaged_header() {
    let raw_response = "HTTP/1.1 200 OK\r\nDate: Mon, 27 Jul 2009 12:28:53 GMT\r\nServer: Apache\r\nLast-Modified Wed, 22 Jul 2009 19:15:56 GMT\r\nETag: \"34aa387-d-1568eb00\"\r\nAccept-Ranges: bytes\r\nContent-Length: 51\r\nVary: Accept-Encoding\r\nContent-Type: text/plain\r\n\r\nHello World! My payload includes a trailing CRLF.\r\n";
    let mut response = Response::new();
    assert!(matches!(
        response.parse(raw_response.as_bytes()),
        Err(Error::Headers(
            rhymessage::Error::HeaderNameContainsIllegalCharacter(name)
        )) if name == "Last-Modified Wed, 22 Jul 2009 19"
    ));
}

#[test]
fn response_with_no_content_length_or_chunked_transfer_encoding_has_no_body() {
    let raw_response = "HTTP/1.1 200 OK\r\nDate: Mon, 27 Jul 2009 12:28:53 GMT\r\nServer: Apache\r\nLast-Modified: Wed, 22 Jul 2009 19:15:56 GMT\r\nETag: \"34aa387-d-1568eb00\"\r\nAccept-Ranges: bytes\r\nVary: Accept-Encoding\r\nContent-Type: text/plain\r\n\r\n";
    let trailer = "Hello World! My payload includes a trailing CRLF.\r\n";
    let mut response = Response::new();
    let raw_with_trailer = String::from(raw_response) + trailer;
    assert!(matches!(
        response.parse(raw_with_trailer.as_bytes()),
        Ok(ParseResults{
            status: ParseStatus::Complete,
            consumed
        }) if consumed == raw_response.len()
    ));
    assert!(response.body.is_empty());
}

#[test]
fn chunked_completion_rejoins_remaining_transfer_codings_with_commas() {
    let raw_response = "HTTP/1.1 200 OK\r\nTransfer-Encoding: foo, bar, chunked\r\n\r\n0\r\n\r\n";
    let mut response = Response::new();
    assert!(matches!(
        response.parse(raw_response.as_bytes()),
        Ok(ParseResults{
            status: ParseStatus::Complete,
            consumed
        }) if consumed == raw_response.len()
    ));
    assert_eq!(
        Some("foo, bar"),
        response.headers.header_value("Transfer-Encoding").as_deref()
    );
    assert!(response.headers.has_header_token("Transfer-Encoding", "foo"));
    assert!(response.headers.has_header_token("Transfer-Encoding", "bar"));
    assert!(!response.headers.has_header_token("Transfer-Encoding", "chunked"));
}
