//! The ways in which an operation of the library can fail.

use vstd::prelude::*;

verus! {

#[derive(Debug, Clone, Copy, PartialEq, Eq, Structural)]
/// A failure of the library.
pub enum Error {
    /// A file could not be read, moved or removed.
    IoError,
    /// The catalog text holds a tag line before any block header.
    MalformedLedger,
    /// The name of a file to ingest has no extension.
    MissingExtension,
    /// The content store holds a file that the catalog does not list.
    InconsistentStore,
    /// No thumbnail is known for a video of the catalog.
    MissingThumbnail,
    /// An access token does not decrypt under the given password, salt and
    /// iteration count.
    AuthenticationFailure,
    /// An access token is not made of lowercase hexadecimal digits, or its
    /// nonce is not 96 bits long.
    MalformedToken,
    /// What an access token decrypts to is not UTF-8 text.
    InvalidText,
    /// The text to encrypt is longer than the cipher accepts.
    PlaintextTooLong,
}

impl Error {
    /// A short description of the failure.
    pub fn message(&self) -> (out: String)
        ensures
            out@ == self.message_text()@,
    {
        String::from_str(self.message_str())
    }

    /// The text of the description.
    pub open spec fn message_text(&self) -> &'static str {
        match self {
            Error::IoError => "input or output failed",
            Error::MalformedLedger => "tag line before any video header",
            Error::MissingExtension => "missing extension",
            Error::InconsistentStore => "could not find previous tags",
            Error::MissingThumbnail => "missing thumbnail",
            Error::AuthenticationFailure => "authentication failed",
            Error::MalformedToken => "malformed access token",
            Error::InvalidText => "invalid utf-8",
            Error::PlaintextTooLong => "plaintext too long",
        }
    }

    /// The description as a string slice.
    fn message_str(&self) -> (out: &'static str)
        ensures
            out == self.message_text(),
    {
        match self {
            Error::IoError => "input or output failed",
            Error::MalformedLedger => "tag line before any video header",
            Error::MissingExtension => "missing extension",
            Error::InconsistentStore => "could not find previous tags",
            Error::MissingThumbnail => "missing thumbnail",
            Error::AuthenticationFailure => "authentication failed",
            Error::MalformedToken => "malformed access token",
            Error::InvalidText => "invalid utf-8",
            Error::PlaintextTooLong => "plaintext too long",
        }
    }
}

} // verus!
