//! The closed set of failure kinds that this crate reports.  Each variant
//! carries the offending input fragment where one applies.

use vstd::prelude::*;

verus! {

/// `std::io::Error` is the error type that the content decoders report;
/// it is carried through opaquely.
#[verifier::external_type_specification]
#[verifier::external_body]
pub struct ExIoError(std::io::Error);

/// This is the enumeration of all the different kinds of errors which this
/// crate generates.
#[derive(Debug)]
pub enum Error {
    /// There was an error attempting to decode the body.
    BadContentEncoding(std::io::Error),
    /// The attached bytes did not parse as valid chunk size text.
    ChunkSizeLineNotValidText(Vec<u8>),
    /// An error occurred with the message headers.
    Headers(rhymessage::Error),
    /// A chunk size in the body was invalid; the attached text is the
    /// offending size field.
    InvalidChunkSize(String),
    /// The attached bytes appeared after the end of a chunk in the place
    /// where a carriage-return and line-feed were expected.
    InvalidChunkTerminator(Vec<u8>),
    /// The `Content-Length` header value attached is not valid.
    InvalidContentLength(String),
    /// The status code text attached in the status line is not valid.
    InvalidStatusCode(String),
    /// The message is too large to fit within the configured size limit.
    MessageTooLong,
    /// No delimiter was found to parse the method from the attached HTTP
    /// request line.
    RequestLineNoMethodDelimiter(String),
    /// The method could not be parsed from the HTTP request line attached.
    /// Either there is extra whitespace, or the method is an empty string.
    RequestLineNoMethodOrExtraWhitespace(String),
    /// No delimiter was found to parse the target URI from the attached HTTP
    /// request line.
    RequestLineNoTargetDelimiter(String),
    /// The target URI could not be parsed from the HTTP request line attached.
    /// Either there is extra whitespace, or the target URI is an empty string.
    RequestLineNoTargetOrExtraWhitespace(String),
    /// The attached bytes did not parse as valid text for the HTTP request
    /// line.
    RequestLineNotValidText(Vec<u8>),
    /// The protocol is unrecognized or could not be parsed from the HTTP
    /// request line attached.
    RequestLineProtocol(String),
    /// The attached bytes are the beginning of the request line, whose length
    /// exceeds the request line limit.
    RequestLineTooLong(Vec<u8>),
    /// The request line contained an invalid target URI.
    RequestTargetUriInvalid(rhymuri::Error),
    /// The attached status code was out of range.
    StatusCodeOutOfRange(usize),
    /// No delimiter was found to parse the protocol from the attached HTTP
    /// status line.
    StatusLineNoProtocolDelimiter(String),
    /// No delimiter was found to parse the status code from the attached HTTP
    /// status line.
    StatusLineNoStatusCodeDelimiter(String),
    /// The attached bytes did not parse as valid text for the HTTP status
    /// line.
    StatusLineNotValidText(Vec<u8>),
    /// The protocol is unrecognized or could not be parsed from the HTTP
    /// status line attached.
    StatusLineProtocol(String),
    /// An error occurred during string formatting.
    StringFormat,
    /// An error occurred with the message trailer.
    Trailer(rhymessage::Error),
}

} // verus!
