//! The crate's error type.
use vstd::prelude::*;
use vstd::utf8::*;

use crate::text::{
    decimal, decimal_digits, lemma_ascii_valid_utf8, lemma_concat_valid_utf8, lemma_decimal_ascii,
    push_bytes, push_str, string_of_bytes, utf8,
};

verus! {

broadcast use vstd::utf8::group_utf8_lib;

/// Why an operation failed.
#[derive(Debug)]
pub enum Error {
    /// A malformed input; the text says what was wrong.
    Invalid(String),
    /// The HTTP client failed.
    Http(String),
    /// A `did:web` document fetch answered with a non-success status.
    DidWebHttp(String, u16),
    /// A `did:web` document was larger than the allowed size.
    DidWebTooLarge { size: usize, limit: usize },
    /// A JSON document could not be read; the text is the parser's message.
    Json(String),
    /// An I/O failure; the text is the system's message.
    Io(String),
}

/// The UTF-8 bytes of an error's message.
pub open spec fn error_message(e: Error) -> Seq<u8> {
    match e {
        Error::Invalid(m) => utf8(m@),
        Error::Http(m) => utf8("http error: "@) + utf8(m@),
        Error::DidWebHttp(did, status) => utf8("did:web fetch "@) + utf8(did@) + utf8(": HTTP "@)
            + decimal_digits(status as nat),
        Error::DidWebTooLarge { size, limit } => utf8("did:web doc size "@) + decimal_digits(
            size as nat,
        ) + utf8(" > limit "@) + decimal_digits(limit as nat),
        Error::Json(m) => utf8("json: "@) + utf8(m@),
        Error::Io(m) => utf8("io: "@) + utf8(m@),
    }
}

/// `e` is `Error::Invalid` with the message whose UTF-8 bytes are `msg`.
pub open spec fn is_invalid(e: Error, msg: Seq<u8>) -> bool {
    e matches Error::Invalid(m) && utf8(m@) == msg
}

pub proof fn lemma_error_message_valid(e: Error)
    ensures
        valid_utf8(error_message(e)),
{
    match e {
        Error::DidWebHttp(did, status) => {
            lemma_decimal_ascii(status as nat);
            lemma_ascii_valid_utf8(decimal_digits(status as nat));
            lemma_concat_valid_utf8(utf8("did:web fetch "@), utf8(did@));
            lemma_concat_valid_utf8(utf8("did:web fetch "@) + utf8(did@), utf8(": HTTP "@));
            lemma_concat_valid_utf8(
                utf8("did:web fetch "@) + utf8(did@) + utf8(": HTTP "@),
                decimal_digits(status as nat),
            );
        },
        Error::DidWebTooLarge { size, limit } => {
            lemma_decimal_ascii(size as nat);
            lemma_ascii_valid_utf8(decimal_digits(size as nat));
            lemma_decimal_ascii(limit as nat);
            lemma_ascii_valid_utf8(decimal_digits(limit as nat));
            let a = utf8("did:web doc size "@);
            lemma_concat_valid_utf8(a, decimal_digits(size as nat));
            lemma_concat_valid_utf8(a + decimal_digits(size as nat), utf8(" > limit "@));
            lemma_concat_valid_utf8(
                a + decimal_digits(size as nat) + utf8(" > limit "@),
                decimal_digits(limit as nat),
            );
        },
        Error::Http(m) => {
            lemma_concat_valid_utf8(utf8("http error: "@), utf8(m@));
        },
        Error::Json(m) => {
            lemma_concat_valid_utf8(utf8("json: "@), utf8(m@));
        },
        Error::Io(m) => {
            lemma_concat_valid_utf8(utf8("io: "@), utf8(m@));
        },
        Error::Invalid(m) => {},
    }
}

impl Error {
    /// An `Error::Invalid` whose message has the UTF-8 bytes `msg`.
    pub fn invalid(msg: Vec<u8>) -> (e: Error)
        requires
            valid_utf8(msg@),
        ensures
            is_invalid(e, msg@),
    {
        Error::Invalid(string_of_bytes(msg))
    }

    /// An `Error::Invalid` with the message `msg`.
    pub fn invalid_str(msg: &str) -> (e: Error)
        ensures
            is_invalid(e, utf8(msg@)),
    {
        Error::Invalid(msg.to_owned())
    }

    /// Appends this error's message to `out`.
    pub fn push_message(&self, out: &mut Vec<u8>)
        ensures
            final(out)@ == old(out)@ + error_message(*self),
    {
        match self {
            Error::Invalid(m) => push_str(out, m.as_str()),
            Error::Http(m) => {
                push_str(out, "http error: ");
                push_str(out, m.as_str());
            },
            Error::DidWebHttp(did, status) => {
                push_str(out, "did:web fetch ");
                push_str(out, did.as_str());
                push_str(out, ": HTTP ");
                let d = decimal(*status as u64);
                push_bytes(out, d.as_slice());
            },
            Error::DidWebTooLarge { size, limit } => {
                push_str(out, "did:web doc size ");
                let d = decimal(*size as u64);
                push_bytes(out, d.as_slice());
                push_str(out, " > limit ");
                let d = decimal(*limit as u64);
                push_bytes(out, d.as_slice());
            },
            Error::Json(m) => {
                push_str(out, "json: ");
                push_str(out, m.as_str());
            },
            Error::Io(m) => {
                push_str(out, "io: ");
                push_str(out, m.as_str());
            },
        }
        assert(out@ =~= old(out)@ + error_message(*self));
    }

    /// The human-readable message of this error.
    pub fn message(&self) -> (s: String)
        ensures
            utf8(s@) == error_message(*self),
    {
        let mut out: Vec<u8> = Vec::new();
        self.push_message(&mut out);
        assert(out@ =~= error_message(*self));
        proof {
            lemma_error_message_valid(*self);
        }
        string_of_bytes(out)
    }
}

} // verus!
