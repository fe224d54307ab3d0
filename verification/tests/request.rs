use rhymessage::Header;
use rhymuri::Uri;
use rhymuweb::request::{ParseResults, ParseStatus};
use rhymuweb::{Error, Request};

#[test]
fn generate_get_request() {
    let mut request = Request::new();
    request.method = "GET".into();
    request.target = Uri::parse("/foo").unwrap();
    request.headers.set_header("Host", "www.example.com");
    request.headers.set_header("Content-Type", "text/plain");
    assert!(matches!(
        request.generate(),
        Ok(raw_request) if raw_request == "GET /foo HTTP/1.1\r\nHost: www.example.com\r\nContent-Type: text/plain\r\n\r\n".as_bytes()
    ));
}

#[test]
fn generate_put_request() {
    let mut request = Request::new();
    request.method = "PUT".into();
    request.target = Uri::parse("/foo").unwrap();
    request.headers.set_header("Host", "www.example.com");
    request.headers.set_header("Content-Type", "text/plain");
    request.body = "FeelsGoodMan".into();
    request.headers.add_header(Header {
        name: "Content-Length".into(),
        value: format!("{}", request.body.len()),
    });
    assert!(matches!(
        request.generate(),
        Ok(raw_request) if raw_request == format!(
            "PUT /foo HTTP/1.1\r\nHost: www.example.com\r\nContent-Type: text/plain\r\nContent-Length: {}\r\n\r\nFeelsGoodMan",
            request.body.len()
        ).as_bytes()
    ));
}

#[test]
fn parse_get_request_ascii_target_uri() {
    let mut request = Request::new();
    let raw_request = "GET /hello.txt HTTP/1.1\r\nUser-Agent: curl/7.16.3 libcurl/7.16.3 OpenSSL/0.9.7l zlib/1.2.3\r\nHost: www.example.com\r\nAccept-Language: en, mi\r\n\r\n";
    assert!(matches!(
        request.parse(raw_request.as_bytes()),
        Ok(ParseResults{
            status: ParseStatus::Complete,
            consumed
        }) if consumed == raw_request.len()
    ));
    assert_eq!("GET", request.method);
    assert_eq!("/hello.txt", request.target.to_string());
    assert!(request.headers.has_header("User-Agent"));
    assert_eq!(
        Some("curl/7.16.3 libcurl/7.16.3 OpenSSL/0.9.7l zlib/1.2.3"),
        request.headers.header_value("User-Agent").as_deref()
    );
    assert!(request.headers.has_header("Host"));
    assert_eq!(
        Some("www.example.com"),
        request.headers.header_value("Host").as_deref()
    );
    assert!(request.headers.has_header("Accept-Language"));
    assert_eq!(
        Some("en, mi"),
        request.headers.header_value("Accept-Language").as_deref()
    );
    assert!(request.body.is_empty());
}

#[test]
fn parse_get_request_non_ascii_target_uri() {
    let mut request = Request::new();
    let raw_request = "GET /%F0%9F%92%A9.txt HTTP/1.1\r\nUser-Agent: curl/7.16.3 libcurl/7.16.3 OpenSSL/0.9.7l zlib/1.2.3\r\nHost: www.example.com\r\nAccept-Language: en, mi\r\n\r\n";
    assert!(matches!(
        request.parse(raw_request.as_bytes()),
        Ok(ParseResults{
            status: ParseStatus::Complete,
            consumed
        }) if consumed == raw_request.len()
    ));
    assert_eq!("GET", request.method);
    let mut expected_uri = Uri::default();
    expected_uri.set_path(
        ["", "💩.txt"]
            .iter()
            .map(|segment| segment.as_bytes().to_vec())
            .collect::<Vec<_>>(),
    );
    assert_eq!(expected_uri, request.target);
    assert!(request.headers.has_header("User-Agent"));
    assert_eq!(
        Some("curl/7.16.3 libcurl/7.16.3 OpenSSL/0.9.7l zlib/1.2.3"),
        request.headers.header_value("User-Agent").as_deref()
    );
    assert!(request.headers.has_header("Host"));
    assert_eq!(
        Some("www.example.com"),
        request.headers.header_value("Host").as_deref()
    );
    assert!(request.headers.has_header("Accept-Language"));
    assert_eq!(
        Some("en, mi"),
        request.headers.header_value("Accept-Language").as_deref()
    );
    assert!(request.body.is_empty());
}

#[test]
fn parse_post_request() {
    let raw_request_body = "say=Hi&to=Mom";
    let raw_request_extra = "\r\n";
    let raw_request_headers = format!(
        "POST / HTTP/1.1\r\nHost: foo.com\r\nContent-Type: application/x-www-form-urlencoded\r\nContent-Length: {}\r\n\r\n",
        raw_request_body.len()
    );
    let mut request = Request::new();
    let raw_request = raw_request_headers.clone() + raw_request_body + raw_request_extra;
    assert!(matches!(
        request.parse(raw_request.as_bytes()),
        Ok(ParseResults{
            status: ParseStatus::Complete,
            consumed
        }) if consumed == raw_request_headers.len() + raw_request_body.len()
    ));
    assert_eq!("POST", request.method);
    assert_eq!("/", request.target.to_string());
    assert!(request.headers.has_header("Content-Type"));
    assert_eq!(
        Some("application/x-www-form-urlencoded"),
        request.headers.header_value("Content-Type").as_deref()
    );
    assert!(request.headers.has_header("Host"));
    assert_eq!(
        Some("foo.com"),
        request.headers.header_value("Host").as_deref()
    );
    assert!(request.headers.has_header("Content-Length"));
    assert_eq!(
        Some(format!("{}", raw_request_body.len())),
        request.headers.header_value("Content-Length")
    );
    assert_eq!(raw_request_body.as_bytes(), request.body);
}

#[test]
fn parse_invalid_request_no_method_delimiter() {
    let raw_request = "foobar\r\nUser-Agent: curl/7.16.3 libcurl/7.16.3 OpenSSL/0.9.7l zlib/1.2.3\r\nHost: www.example.com\r\nAccept-Language: en, mi\r\n\r\n";
    let mut request = Request::new();
    assert!(matches!(
        request.parse(raw_request.as_bytes()),
        Err(Error::RequestLineNoMethodDelimiter(line)) if line == "foobar"
    ));
}

#[test]
fn parse_invalid_request_empty_method() {
    let raw_request = " /hello.txt HTTP/1.1\r\nUser-Agent: curl/7.16.3 libcurl/7.16.3 OpenSSL/0.9.7l zlib/1.2.3\r\nHost: www.example.com\r\nAccept-Language: en, mi\r\n\r\n";
    let mut request = Request::new();
    assert!(matches!(
        request.parse(raw_request.as_bytes()),
        Err(Error::RequestLineNoMethodOrExtraWhitespace(line))
            if line == " /hello.txt HTTP/1.1"
    ));
}

#[test]
fn parse_invalid_request_no_target() {
    let raw_request = "GET  HTTP/1.1\r\nUser-Agent: curl/7.16.3 libcurl/7.16.3 OpenSSL/0.9.7l zlib/1.2.3\r\nHost: www.example.com\r\nAccept-Language: en, mi\r\n\r\n";
    let mut request = Request::new();
    assert!(matches!(
        request.parse(raw_request.as_bytes()),
        Err(Error::RequestLineNoTargetOrExtraWhitespace(line))
            if line == "GET  HTTP/1.1"
    ));
}

#[test]
fn parse_invalid_request_no_protocol() {
    let raw_request = "GET /hello.txt\r\nUser-Agent: curl/7.16.3 libcurl/7.16.3 OpenSSL/0.9.7l zlib/1.2.3\r\nHost: www.example.com\r\nAccept-Language: en, mi\r\n\r\n";
    let mut request = Request::new();
    assert!(matches!(
        request.parse(raw_request.as_bytes()),
        Err(Error::RequestLineNoTargetDelimiter(line))
            if line == "GET /hello.txt"
    ));
}

#[test]
fn parse_invalid_request_empty_protocol() {
    let raw_request = "GET /hello.txt \r\nUser-Agent: curl/7.16.3 libcurl/7.16.3 OpenSSL/0.9.7l zlib/1.2.3\r\nHost: www.example.com\r\nAccept-Language: en, mi\r\n\r\n";
    let mut request = Request::new();
    assert!(matches!(
        request.parse(raw_request.as_bytes()),
        Err(Error::RequestLineProtocol(line))
            if line == "GET /hello.txt "
    ));
}

#[test]
fn parse_invalid_request_bad_protocol() {
    let raw_request = "GET /hello.txt FOO\r\nUser-Agent: curl/7.16.3 libcurl/7.16.3 OpenSSL/0.9.7l zlib/1.2.3\r\nHost: www.example.com\r\nAccept-Language: en, mi\r\n\r\n";
    let mut request = Request::new();
    assert!(matches!(
        request.parse(raw_request.as_bytes()),
        Err(Error::RequestLineProtocol(line))
            if line == "GET /hello.txt FOO"
    ));
}

#[test]
fn request_parse_invalid_damaged_header() {
    let raw_request = "GET /hello.txt HTTP/1.1\r\nUser-Agent curl/7.16.3 libcurl/7.16.3 OpenSSL/0.9.7l zlib/1.2.3\r\nHost: www.example.com\r\nAccept-Language: en, mi\r\n\r\n";
    let mut request = Request::new();
    assert!(matches!(
        request.parse(raw_request.as_bytes()),
        Err(Error::Headers(
            rhymessage::Error::HeaderLineMissingColon(line)
        )) if line == "User-Agent curl/7.16.3 libcurl/7.16.3 OpenSSL/0.9.7l zlib/1.2.3"
    ));
}

#[test]
fn parse_invalid_header_line_too_long() {
    let test_header_name = "X-Poggers";
    let test_header_name_with_delimiters = String::from(test_header_name) + ": ";
    let value_is_too_long = "X".repeat(999 - test_header_name_with_delimiters.len());
    let too_long_header = test_header_name_with_delimiters + &value_is_too_long + "\r\n";
    let raw_request = "GET /hello.txt HTTP/1.1\r\nUser-Agent: curl/7.16.3 libcurl/7.16.3 OpenSSL/0.9.7l zlib/1.2.3\r\n"
    .to_string()
        + &too_long_header
        + "Host: www.example.com\r\n"
        + "Accept-Language: en, mi\r\n"
        + "\r\n";
    let mut request = Request::new();
    assert!(matches!(
        request.parse(raw_request.as_bytes()),
        Err(Error::Headers(rhymessage::Error::HeaderLineTooLong(line)))
            if line == too_long_header[0..1000].as_bytes()
    ));
}

#[test]
fn parse_valid_header_line_longer_than_default() {
    let test_header_name = "X-Poggers";
    let test_header_name_with_delimiters = String::from(test_header_name) + ": ";
    let value_is_long_but_within_custom_limit =
        "X".repeat(999 - test_header_name_with_delimiters.len());
    let raw_request = "GET /hello.txt HTTP/1.1\r\nUser-Agent: curl/7.16.3 libcurl/7.16.3 OpenSSL/0.9.7l zlib/1.2.3\r\n"
    .to_string()
        + &test_header_name_with_delimiters
        + &value_is_long_but_within_custom_limit
        + "\r\n"
        + "Host: www.example.com\r\n"
        + "Accept-Language: en, mi\r\n"
        + "\r\n";
    let mut request = Request::new();
    request.headers.set_line_limit(Some(1001));
    assert!(matches!(
        request.parse(raw_request.as_bytes()),
        Ok(ParseResults{
            status: ParseStatus::Complete,
            consumed
        }) if consumed == raw_request.len()
    ));
}

#[test]
fn parse_invalid_body_insanely_too_large() {
    let raw_request = "POST /hello.txt HTTP/1.1\r\nUser-Agent: curl/7.16.3 libcurl/7.16.3 OpenSSL/0.9.7l zlib/1.2.3\r\nHost: www.example.com\r\nContent-Length: 1000000000000000000000000000000000000000000000000000000000000000000\r\nAccept-Language: en, mi\r\n\r\n";
    let mut request = Request::new();
    assert!(matches!(
        request.parse(raw_request.as_bytes()),
        Err(Error::InvalidContentLength(_))
    ));
}

#[test]
fn parse_invalid_body_slightly_too_large() {
    let raw_request = "POST /hello.txt HTTP/1.1\r\nUser-Agent: curl/7.16.3 libcurl/7.16.3 OpenSSL/0.9.7l zlib/1.2.3\r\nHost: www.example.com\r\nContent-Length: 10000001\r\nAccept-Language: en, mi\r\n\r\n";
    let mut request = Request::new();
    assert!(matches!(
        request.parse(raw_request.as_bytes()),
        Err(Error::MessageTooLong)
    ));
}

#[test]
fn parse_incomplete_body_request() {
    let raw_request = "POST / HTTP/1.1\r\nHost: foo.com\r\nContent-Type: application/x-www-form-urlencoded\r\nContent-Length: 100\r\n\r\nsay=Hi&to=Mom\r\n";
    let mut request = Request::new();
    assert!(matches!(
        request.parse(raw_request.as_bytes()),
        Ok(ParseResults{
            status: ParseStatus::Incomplete,
            consumed
        }) if consumed == raw_request.len()
    ));
}

#[test]
fn parse_incomplete_headers_between_lines_request() {
    let raw_request_first_part = "POST / HTTP/1.1\r\nHost: foo.com\r\n";
    let raw_request = String::from(raw_request_first_part)
        + "Content-Type: application/x-www-form-urlencoded\r\n";
    let mut request = Request::new();
    assert!(matches!(
        request.parse(raw_request.as_bytes()),
        Ok(ParseResults{
            status: ParseStatus::Incomplete,
            consumed
        }) if consumed == raw_request_first_part.len()
    ));
}

#[test]
fn parse_incomplete_headers_mid_line_request() {
    let raw_request_first_part = "POST / HTTP/1.1\r\n";
    let raw_request = String::from(raw_request_first_part)
        + "Host: foo.com\r\n"
        + "Content-Type: application/x-w";
    let mut request = Request::new();
    assert!(matches!(
        request.parse(raw_request.as_bytes()),
        Ok(ParseResults{
            status: ParseStatus::Incomplete,
            consumed
        }) if consumed == raw_request_first_part.len()
    ));
}

#[test]
fn parse_incomplete_request_line() {
    let raw_request = "POST / HTTP/1.1\r";
    let mut request = Request::new();
    assert!(matches!(
        request.parse(raw_request.as_bytes()),
        Ok(ParseResults {
            status: ParseStatus::Incomplete,
            consumed: 0
        })
    ));
}

#[test]
fn parse_incomplete_no_headers_request() {
    let raw_request = "POST / HTTP/1.1\r\n";
    let mut request = Request::new();
    assert!(matches!(
        request.parse(raw_request.as_bytes()),
        Ok(ParseResults{
            status: ParseStatus::Incomplete,
            consumed
        }) if consumed == raw_request.len()
    ));
}

#[test]
fn request_with_no_content_length_or_chunked_transfer_encoding_has_no_body() {
    let raw_request = "GET /hello.txt HTTP/1.1\r\nUser-Agent: curl/7.16.3 libcurl/7.16.3 OpenSSL/0.9.7l zlib/1.2.3\r\nHost: www.example.com\r\nAccept-Language: en, mi\r\n\r\n";
    let raw_request_with_extra = String::from(raw_request) + "Hello, World!\r\n";
    let mut request = Request::new();
    assert!(matches!(
        request.parse(raw_request_with_extra.as_bytes()),
        Ok(ParseResults{
            status: ParseStatus::Complete,
            consumed
        }) if consumed == raw_request.len()
    ));
    assert!(request.body.is_empty());
}

#[test]
fn parse_invalid_request_line_too_long() {
    let uri_too_long = "X".repeat(1000);
    let raw_request = String::from("GET ") + &uri_too_long + " HTTP/1.1\r\n";
    let mut request = Request::new();
    assert!(matches!(
        request.parse(raw_request.as_bytes()),
        Err(Error::RequestLineTooLong(line))
            if line == raw_request[0..1000].as_bytes()
    ));
}

#[test]
fn max_message_size_checked_for_headers() {
    let mut request = Request::new();
    request.max_message_size = Some(150);
    let small_request = "GET /hello.txt HTTP/1.1\r\nUser-Agent: curl/7.16.3 libcurl/7.16.3 OpenSSL/0.9.7l zlib/1.2.3\r\nHost: www.example.com\r\nAccept-Language: en, mi\r\n\r\n";
    assert!(matches!(
        request.parse(small_request.as_bytes()),
        Ok(ParseResults{
            status: ParseStatus::Complete,
            consumed
        }) if consumed == small_request.len()
    ));
    request = Request::new();
    request.max_message_size = Some(150);
    let large_request = "GET /hello.txt HTTP/1.1\r\nUser-Agent: curl/7.16.3 libcurl/7.16.3 OpenSSL/0.9.7l zlib/1.2.3\r\nHost: www.example.com\r\nAccept-Language: en, mi\r\nX-PogChamp-Level: Over 9000\r\n\r\n";
    assert!(matches!(
        request.parse(large_request.as_bytes()),
        Err(Error::MessageTooLong)
    ));
}

#[test]
fn max_message_size_checked_for_total() {
    let mut request = Request::new();
    request.max_message_size = Some(125);
    let small_request = "POST / HTTP/1.1\r\nHost: foo.com\r\nContent-Type: application/x-www-form-urlencoded\r\nContent-Length: 15\r\n\r\nsay=Hi&to=Mom\r\n";
    assert!(matches!(
        request.parse(small_request.as_bytes()),
        Ok(ParseResults{
            status: ParseStatus::Complete,
            consumed
        }) if consumed == small_request.len()
    ));
    request = Request::new();
    request.max_message_size = Some(125);
    let large_request = "POST / HTTP/1.1\r\nHost: foo.com\r\nContent-Type: application/x-www-form-urlencoded\r\nContent-Length: 102\r\n\r\nsay=Hi&to=Mom&listen_to=lecture&content=remember_to_brush_your_teeth_and_always_wear_clean_underwear\r\n";
    assert!(matches!(
        request.parse(large_request.as_bytes()),
        Err(Error::MessageTooLong)
    ));
}
