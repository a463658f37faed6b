//! The failures that an operation of the client can end in.

use vstd::prelude::*;
use vstd::string::*;

verus! {

/// Why a decode, a command or an upload failed.
#[derive(Debug, PartialEq, Eq)]
pub enum Error {
    /// The response array announces fewer than one element.
    InvalidLength,
    /// The payload is truncated, or an element has another type than its tag asks for.
    Malformed,
    /// The response carries a tag outside the closed set of value types.
    UnknownType(String),
    /// The server answered with an `error` response; the text is the server's.
    Server(String),
    /// No idle connection was left in the pool.
    PoolExhausted,
    /// Reading from or writing to the connection failed.
    Connection,
    /// The bit depth query was not answered with an integer.
    InvalidBitDepth,
    /// The stream's bit depth is neither 16 nor 24.
    UnsupportedBitDepth,
    /// The chunk size holds not even one sample of the stream's bit depth.
    ChunkTooSmall,
    /// The compressor failed on a block.
    Compression,
    /// The upload had already ended when a further reply arrived.
    Finished,
}

/// An [`Error`] with its texts as sequences of characters.
pub ghost enum ErrorView {
    InvalidLength,
    Malformed,
    UnknownType(Seq<char>),
    Server(Seq<char>),
    PoolExhausted,
    Connection,
    InvalidBitDepth,
    UnsupportedBitDepth,
    ChunkTooSmall,
    Compression,
    Finished,
}

impl View for Error {
    type V = ErrorView;

    open spec fn view(&self) -> ErrorView {
        match self {
            Error::InvalidLength => ErrorView::InvalidLength,
            Error::Malformed => ErrorView::Malformed,
            Error::UnknownType(tag) => ErrorView::UnknownType(tag@),
            Error::Server(text) => ErrorView::Server(text@),
            Error::PoolExhausted => ErrorView::PoolExhausted,
            Error::Connection => ErrorView::Connection,
            Error::InvalidBitDepth => ErrorView::InvalidBitDepth,
            Error::UnsupportedBitDepth => ErrorView::UnsupportedBitDepth,
            Error::ChunkTooSmall => ErrorView::ChunkTooSmall,
            Error::Compression => ErrorView::Compression,
            Error::Finished => ErrorView::Finished,
        }
    }
}

/// The text that describes an error to the user.
pub open spec fn spec_message(e: ErrorView) -> Seq<char> {
    match e {
        ErrorView::InvalidLength => "Invalid buffer length"@,
        ErrorView::Malformed => "Malformed response"@,
        ErrorView::UnknownType(tag) => "Unknown type: "@ + tag,
        ErrorView::Server(text) => text,
        ErrorView::PoolExhausted => "No connection available"@,
        ErrorView::Connection => "Connection failed"@,
        ErrorView::InvalidBitDepth => "Invalid bit depth"@,
        ErrorView::UnsupportedBitDepth => "Unsupported bit depth"@,
        ErrorView::ChunkTooSmall => "Chunk size too small"@,
        ErrorView::Compression => "Compression failed"@,
        ErrorView::Finished => "Upload already finished"@,
    }
}

impl Error {
    /// The text that describes this error; for a server error, the server's own text.
    pub fn message(&self) -> (text: String)
        ensures
            text@ == spec_message(self@),
    {
        match self {
            Error::InvalidLength => String::from_str("Invalid buffer length"),
            Error::Malformed => String::from_str("Malformed response"),
            Error::UnknownType(tag) => String::from_str("Unknown type: ").concat(tag.as_str()),
            Error::Server(text) => text.clone(),
            Error::PoolExhausted => String::from_str("No connection available"),
            Error::Connection => String::from_str("Connection failed"),
            Error::InvalidBitDepth => String::from_str("Invalid bit depth"),
            Error::UnsupportedBitDepth => String::from_str("Unsupported bit depth"),
            Error::ChunkTooSmall => String::from_str("Chunk size too small"),
            Error::Compression => String::from_str("Compression failed"),
            Error::Finished => String::from_str("Upload already finished"),
        }
    }
}

} // verus!
