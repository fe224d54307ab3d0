use rhymuweb::chunked_body::{ChunkedBody, ChunkedBodyState, DecodeStatus};
use rhymuweb::Error;

#[test]
fn decode_simple_empty_body_one_piece() {
    let input = "0\r\n\r\n";
    let mut body = ChunkedBody::new();
    assert!(matches!(
        body.decode(input.as_bytes()),
        Ok((DecodeStatus::Complete, consumed)) if consumed == input.len()
    ));
    assert_eq!(b"", body.as_bytes());
}

#[test]
fn decode_empty_body_multiple_zeroes() {
    let input = "00000\r\n\r\n";
    let mut body = ChunkedBody::new();
    assert!(matches!(
        body.decode(input.as_bytes()),
        Ok((DecodeStatus::Complete, consumed)) if consumed == input.len()
    ));
    assert_eq!(b"", body.as_bytes());
}

#[test]
fn decode_empty_body_with_chunk_extension_no_value() {
    let input = "000;dude\r\n\r\n";
    let mut body = ChunkedBody::new();
    assert!(matches!(
        body.decode(input.as_bytes()),
        Ok((DecodeStatus::Complete, consumed)) if consumed == input.len()
    ));
    assert_eq!(b"", body.as_bytes());
}

#[test]
fn decode_empty_body_with_chunk_extension_with_unquoted_value() {
    let input = "000;Kappa=PogChamp\r\n\r\n";
    let mut body = ChunkedBody::new();
    assert!(matches!(
        body.decode(input.as_bytes()),
        Ok((DecodeStatus::Complete, consumed)) if consumed == input.len()
    ));
    assert_eq!(b"", body.as_bytes());
}

#[test]
fn decode_empty_body_with_chunk_extension_with_quoted_value() {
    let input = "000;Kappa=\"Hello, World!\"\r\n\r\n";
    let mut body = ChunkedBody::new();
    assert!(matches!(
        body.decode(input.as_bytes()),
        Ok((DecodeStatus::Complete, consumed)) if consumed == input.len()
    ));
    assert_eq!(b"", body.as_bytes());
}

#[test]
fn decode_empty_body_with_multiple_chunk_extensions() {
    let input = "000;Foo=Bar;Kappa=\"Hello, World!\";Spam=12345!\r\n\r\n";
    let mut body = ChunkedBody::new();
    assert!(matches!(
        body.decode(input.as_bytes()),
        Ok((DecodeStatus::Complete, consumed)) if consumed == input.len()
    ));
    assert_eq!(b"", body.as_bytes());
}

#[test]
fn decode_simple_empty_body_one_character_at_a_time() {
    let input = b"0\r\n\r\n";
    let mut accepted = 0;
    let mut body = ChunkedBody::new();
    for i in 0..input.len() {
        let (status, consumed) = body.decode(&input[accepted..=i]).unwrap();
        accepted += consumed;
        match i {
            0..=1 => {
                assert_eq!(DecodeStatus::Incomplete, status, "{}", i);
                assert_eq!(ChunkedBodyState::ChunkSize, body.state, "{}", i);
                assert_eq!(0, accepted);
            },
            2..=3 => {
                assert_eq!(DecodeStatus::Incomplete, status, "{}", i);
                assert_eq!(ChunkedBodyState::Trailer, body.state, "{}", i);
                assert_eq!(3, accepted);
            },
            _ => {
                assert_eq!(DecodeStatus::Complete, status, "{}", i);
                assert_eq!(5, accepted);
            },
        }
    }
    assert_eq!(b"", body.as_bytes());
}

#[test]
fn decode_simple_empty_body_one_piece_with_extra_stuff_after() {
    let input = "0\r\n\r\nHello!";
    let mut body = ChunkedBody::new();
    assert!(matches!(body.decode(input.as_bytes()), Ok((DecodeStatus::Complete, 5))));
    assert_eq!(b"", body.as_bytes());
}

#[test]
fn decode_simple_empty_body_two_pieces() {
    let input = "XYZ0\r\n\r\n123";
    let mut body = ChunkedBody::new();
    assert!(matches!(
        body.decode(input[3..7].as_bytes()),
        Ok((DecodeStatus::Incomplete, 3))
    ));
    assert_eq!(ChunkedBodyState::Trailer, body.state);
    assert!(matches!(
        body.decode(input[6..9].as_bytes()),
        Ok((DecodeStatus::Complete, 2))
    ));
    assert_eq!(b"", body.as_bytes());
}

#[test]
fn decode_simple_non_empty_body_one_piece() {
    let input = "5\r\nHello\r\n0\r\n\r\n";
    let mut body = ChunkedBody::new();
    assert!(matches!(
        body.decode(input.as_bytes()),
        Ok((DecodeStatus::Complete, consumed)) if consumed == input.len()
    ));
    assert_eq!(b"Hello", body.as_bytes());
}

#[test]
fn decode_simple_non_empty_body_one_character_at_a_time() {
    let input = "5\r\nHello\r\n0\r\n\r\n";
    let mut accepted = 0;
    let mut body = ChunkedBody::new();
    for i in 0..input.len() {
        let (status, consumed) = body.decode(input[accepted..=i].as_bytes()).unwrap();
        accepted += consumed;
        match i {
            0..=1 => {
                assert_eq!(DecodeStatus::Incomplete, status, "{}", i);
                assert_eq!(ChunkedBodyState::ChunkSize, body.state, "{}", i);
                assert_eq!(0, accepted);
            },
            2..=6 => {
                assert_eq!(DecodeStatus::Incomplete, status, "{}", i);
                assert_eq!(ChunkedBodyState::ChunkData, body.state, "{}", i);
                assert_eq!(i + 1, accepted);
            },
            7..=8 => {
                assert_eq!(DecodeStatus::Incomplete, status, "{}", i);
                assert_eq!(ChunkedBodyState::ChunkTerminator, body.state, "{}", i);
                assert_eq!(8, accepted);
            },
            9..=11 => {
                assert_eq!(DecodeStatus::Incomplete, status, "{}", i);
                assert_eq!(ChunkedBodyState::ChunkSize, body.state, "{}", i);
                assert_eq!(10, accepted);
            },
            12..=13 => {
                assert_eq!(DecodeStatus::Incomplete, status, "{}", i);
                assert_eq!(ChunkedBodyState::Trailer, body.state, "{}", i);
                assert_eq!(13, accepted);
            },
            _ => {
                assert_eq!(DecodeStatus::Complete, status, "{}", i);
                assert_eq!(15, accepted);
            },
        }
    }
    assert_eq!(b"Hello", body.as_bytes());
}

#[test]
fn decode_two_chunk_body_one_piece() {
    let input = "6\r\nHello,\r\n7\r\n World!\r\n0\r\n\r\n";
    let mut body = ChunkedBody::new();
    assert!(matches!(
        body.decode(input.as_bytes()),
        Ok((DecodeStatus::Complete, consumed)) if consumed == input.len()
    ));
    assert_eq!(b"Hello, World!", body.as_bytes());
}

#[test]
fn decode_two_chunk_body_one_character_at_a_time() {
    let input = "6\r\nHello,\r\n7\r\n World!\r\n0\r\n\r\n";
    let mut accepted = 0;
    let mut body = ChunkedBody::new();
    for i in 0..input.len() {
        let (status, consumed) = body.decode(input[accepted..=i].as_bytes()).unwrap();
        accepted += consumed;
        match i {
            0..=1 => {
                assert_eq!(DecodeStatus::Incomplete, status, "{}", i);
                assert_eq!(ChunkedBodyState::ChunkSize, body.state, "{}", i);
                assert_eq!(0, accepted);
            },
            2..=7 => {
                assert_eq!(DecodeStatus::Incomplete, status, "{}", i);
                assert_eq!(ChunkedBodyState::ChunkData, body.state, "{}", i);
                assert_eq!(i + 1, accepted);
            },
            8..=9 => {
                assert_eq!(DecodeStatus::Incomplete, status, "{}", i);
                assert_eq!(ChunkedBodyState::ChunkTerminator, body.state, "{}", i);
                assert_eq!(9, accepted);
            },
            10..=12 => {
                assert_eq!(DecodeStatus::Incomplete, status, "{}", i);
                assert_eq!(ChunkedBodyState::ChunkSize, body.state, "{}", i);
                assert_eq!(11, accepted);
            },
            13..=19 => {
                assert_eq!(DecodeStatus::Incomplete, status, "{}", i);
                assert_eq!(ChunkedBodyState::ChunkData, body.state, "{}", i);
                assert_eq!(i + 1, accepted);
            },
            20..=21 => {
                assert_eq!(DecodeStatus::Incomplete, status, "{}", i);
                assert_eq!(ChunkedBodyState::ChunkTerminator, body.state, "{}", i);
                assert_eq!(21, accepted);
            },
            22..=24 => {
                assert_eq!(DecodeStatus::Incomplete, status, "{}", i);
                assert_eq!(ChunkedBodyState::ChunkSize, body.state, "{}", i);
                assert_eq!(23, accepted);
            },
            25..=26 => {
                assert_eq!(DecodeStatus::Incomplete, status, "{}", i);
                assert_eq!(ChunkedBodyState::Trailer, body.state, "{}", i);
                assert_eq!(26, accepted);
            },
            _ => {
                assert_eq!(DecodeStatus::Complete, status, "{}", i);
                assert_eq!(28, accepted);
            },
        }
    }
    assert_eq!(b"Hello, World!", body.as_bytes());
}

#[test]
fn decode_trailers_one_piece() {
    let input = "0\r\nX-Foo: Bar\r\nX-Poggers: FeelsBadMan\r\n\r\n";
    let mut body = ChunkedBody::new();
    assert!(matches!(
        body.decode(input.as_bytes()),
        Ok((DecodeStatus::Complete, consumed)) if consumed == input.len()
    ));
    assert_eq!(b"", body.as_bytes());
    assert_eq!(
        &vec![
            rhymessage::Header {
                name: "X-Foo".into(),
                value: "Bar".into(),
            },
            rhymessage::Header {
                name: "X-Poggers".into(),
                value: "FeelsBadMan".into(),
            },
        ],
        body.trailer.headers()
    );
}

#[test]
fn decode_trailers_one_character_at_a_time() {
    let input = "0\r\nX-Foo: Bar\r\nX-Poggers: FeelsBadMan\r\n\r\n";
    let mut accepted = 0;
    let mut body = ChunkedBody::new();
    for i in 0..input.len() {
        let (status, consumed) = body.decode(input[accepted..=i].as_bytes()).unwrap();
        accepted += consumed;
        match i {
            0..=1 => {
                assert_eq!(DecodeStatus::Incomplete, status, "{}", i);
                assert_eq!(ChunkedBodyState::ChunkSize, body.state, "{}", i);
                assert_eq!(0, accepted);
            },
            2..=37 => {
                assert_eq!(DecodeStatus::Incomplete, status, "{}", i);
                assert_eq!(ChunkedBodyState::Trailer, body.state, "{}", i);
                assert_eq!(3, accepted);
            },
            38..=39 => {
                assert_eq!(DecodeStatus::Incomplete, status, "{}", i);
                assert_eq!(ChunkedBodyState::Trailer, body.state, "{}", i);
                assert_eq!(15, accepted);
            },
            _ => {
                assert_eq!(DecodeStatus::Complete, status, "{}", i);
                assert_eq!(41, accepted);
            },
        }
    }
    assert_eq!(b"", body.as_bytes());
    assert_eq!(
        &vec![
            rhymessage::Header {
                name: "X-Foo".into(),
                value: "Bar".into(),
            },
            rhymessage::Header {
                name: "X-Poggers".into(),
                value: "FeelsBadMan".into(),
            },
        ],
        body.trailer.headers()
    );
}

#[test]
fn decode_bad_chunk_size_line_not_hexdig_in_chunk_size() {
    let input = "0g\r\n\r\n";
    let mut body = ChunkedBody::new();
    assert!(matches!(body.decode(input.as_bytes()), Err(Error::InvalidChunkSize(_))));
}

#[test]
fn decode_bad_chunk_size_line_chunk_size_overflow() {
    let input = "111111111111111111111111111111111111111111111111111111111111111\r\n\r\n";
    let mut body = ChunkedBody::new();
    assert!(matches!(
        body.decode(input.as_bytes()),
        Err(Error::InvalidChunkSize(_))
    ));
}

#[test]
fn decode_bad_junk_after_chunk() {
    let input = "1\r\nXjunk\r\n";
    let mut body = ChunkedBody::new();
    assert!(matches!(
        body.decode(input.as_bytes()),
        Err(Error::InvalidChunkTerminator(junk)) if junk == b"junk\r\n"
    ));
}

#[test]
fn decode_bad_trailer() {
    let input = "0\r\nX-Foo Bar\r\n\r\n";
    let mut body = ChunkedBody::new();
    assert!(matches!(
        body.decode(input.as_bytes()),
        Err(Error::Trailer(
            rhymessage::Error::HeaderLineMissingColon(line)
        )) if line == "X-Foo Bar"
    ));
}
