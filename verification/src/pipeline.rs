//! The two steps in their order: the encoding is looked at first, and only
//! an admitted input is converted.

use crate::encoding::{
    admits, detected_label, lemma_utf8_is_standard, plain_ascii, sniff_window,
    standard_labels, verdict, EncodingError,
    EncodingSniffer,
};
use crate::options::default_config;
use crate::text::lines_of;
use crate::transcoder::{convert, document, TranscodeError};
use vstd::prelude::*;
use vstd::utf8::{decode_utf8, encode_utf8, valid_utf8};

verus! {

/// Why a run gave no document.
#[derive(Debug, PartialEq, Eq)]
pub enum RunError {
    /// The input was not admitted: nothing of it was converted.
    Encoding(EncodingError),
    /// The input was admitted, but its bytes are not UTF-8 text.
    NotUtf8,
    /// The conversion stopped at a row.
    Transcode(TranscodeError),
}

impl RunError {
    /// What the failure says.
    pub open spec fn message_text(self) -> Seq<char> {
        match self {
            RunError::Encoding(e) => e.message_text(),
            RunError::NotUtf8 => "The input is not valid UTF-8."@,
            RunError::Transcode(e) => e.message_text(),
        }
    }

    /// The failure in words, for the one who gave the input.
    pub fn message(&self) -> (m: String)
        ensures
            m@ == self.message_text(),
    {
        match self {
            RunError::Encoding(e) => e.message(),
            RunError::NotUtf8 => "The input is not valid UTF-8.".to_owned(),
            RunError::Transcode(e) => e.message(),
        }
    }
}

/// `std::str::from_utf8`: the bytes as a string where they are valid UTF-8,
/// and only then; the string is made of the very bytes.
#[verifier::external_body]
fn as_text(bytes: &[u8]) -> (r: Option<&str>)
    ensures
        r is Some <==> valid_utf8(bytes@),
        r matches Some(s) ==> encode_utf8(s@) == bytes@,
{
    std::str::from_utf8(bytes).ok()
}

/// What a run answers for `input`, given the label that was detected for it.
pub open spec fn run_outcome(
    input: Seq<u8>,
    label: Seq<char>,
    delimiter: char,
    r: Result<Vec<u8>, RunError>,
) -> bool {
    match r {
        Err(RunError::Encoding(e)) => {
            &&& !admits(standard_labels(), label)
            &&& verdict(standard_labels(), label, Err(e))
        },
        Err(RunError::NotUtf8) => {
            &&& admits(standard_labels(), label)
            &&& !valid_utf8(input)
        },
        Err(RunError::Transcode(e)) => {
            &&& admits(standard_labels(), label)
            &&& valid_utf8(input)
            &&& document(lines_of(decode_utf8(input)), default_config(delimiter)) == Err::<
                Seq<char>,
                TranscodeError,
            >(e)
        },
        Ok(out) => {
            &&& admits(standard_labels(), label)
            &&& valid_utf8(input)
            &&& document(lines_of(decode_utf8(input)), default_config(delimiter)) matches Ok(text)
            &&& out@ == encode_utf8(text)
        },
    }
}

/// Looks at the encoding of `input` and converts it where it is admitted.
/// An input whose detected label is not among the default labels gives the
/// rejection and nothing else; every other input goes on to the conversion,
/// which reads it as UTF-8 text.
pub fn run(input: &[u8], delimiter: char) -> (r: Result<Vec<u8>, RunError>)
    ensures
        run_outcome(input@, detected_label(sniff_window(input@), true, true), delimiter, r),
        plain_ascii(sniff_window(input@)) ==> !(r matches Err(RunError::Encoding(_))),
{
    proof {
        lemma_utf8_is_standard();
    }
    let sniffer = EncodingSniffer::standard();
    match sniffer.detect(input) {
        Err(e) => {
            return Err(RunError::Encoding(e));
        },
        Ok(_) => {},
    }
    let text = match as_text(input) {
        None => {
            return Err(RunError::NotUtf8);
        },
        Some(text) => text,
    };
    proof {
        vstd::utf8::encode_utf8_decode_utf8(text@);
    }
    match convert(text, delimiter) {
        Ok(out) => Ok(out),
        Err(e) => Err(RunError::Transcode(e)),
    }
}

} // verus!
