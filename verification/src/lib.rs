//! Conversion of delimited tabular text into an XML document, after a look at
//! which character encoding the input appears to be in.
//!
//! `encoding` guesses the encoding from the first bytes of an input and holds
//! the guess against a list of accepted labels. `transcoder` turns the lines
//! of an input into the document, line by line or all at once; `pipeline`
//! does the one after the other. `text`, `event`, `markup` and `sink` are
//! what the conversion is made of: fields, events, their text and the
//! writer. `table` and `shape` state what holds of every document.

pub mod encoding;
pub mod event;
pub mod markup;
pub mod options;
pub mod pipeline;
pub mod shape;
pub mod sink;
pub mod table;
pub mod text;
pub mod transcoder;

pub use encoding::{check_encoding, is_supported_encoding, EncodingError, EncodingSniffer};
pub use options::{Config, Delimiter, NameType, Provenance, RaggedPolicy};
pub use pipeline::{run, RunError};
pub use transcoder::{convert, convert_with, TranscodeError, Transcoder};
