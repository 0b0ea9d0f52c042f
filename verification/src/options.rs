//! What a conversion is configured with.

use vstd::prelude::*;

verus! {

/// The characters offered for separating the fields of a line.
#[derive(Clone, Copy, Debug, PartialEq, Eq, Structural)]
pub enum Delimiter {
    Comma,
    Pipe,
    Tab,
}

impl Delimiter {
    /// The character that the delimiter stands for.
    pub open spec fn character(self) -> char {
        match self {
            Delimiter::Comma => ',',
            Delimiter::Pipe => '|',
            Delimiter::Tab => '\t',
        }
    }

    /// The character that separates the fields.
    pub fn as_char(&self) -> (c: char)
        ensures
            c == self.character(),
    {
        match self {
            Delimiter::Comma => ',',
            Delimiter::Pipe => '|',
            Delimiter::Tab => '\t',
        }
    }
}

/// How the name of a row's source is to be understood.
#[derive(Clone, Copy, Debug, PartialEq, Eq, Structural)]
pub enum NameType {
    Absolute,
    Literal,
    Leaf,
    LeafNoExt,
    NoneType,
}

impl NameType {
    /// The word that stands for the kind in a document.
    pub open spec fn word(self) -> Seq<char> {
        match self {
            NameType::Absolute => "absolute"@,
            NameType::Literal => "literal"@,
            NameType::Leaf => "leaf"@,
            NameType::LeafNoExt => "leafnoext"@,
            NameType::NoneType => "none"@,
        }
    }

    /// The word that stands for the kind in a document.
    pub fn as_str(&self) -> (s: &'static str)
        ensures
            s@ == self.word(),
    {
        match self {
            NameType::Absolute => "absolute",
            NameType::Literal => "literal",
            NameType::Leaf => "leaf",
            NameType::LeafNoExt => "leafnoext",
            NameType::NoneType => "none",
        }
    }
}

/// Where a row is said to come from: the kind of source name, the name of
/// the source and the name of the worksheet.
#[derive(Debug, PartialEq, Eq)]
pub struct Provenance {
    pub source_name_mode: NameType,
    pub source_label: String,
    pub worksheet_label: String,
}

/// A `Provenance` as plain values.
#[verifier::ext_equal]
pub struct ProvenanceView {
    pub source_name_mode: NameType,
    pub source_label: Seq<char>,
    pub worksheet_label: Seq<char>,
}

impl View for Provenance {
    type V = ProvenanceView;

    open spec fn view(&self) -> ProvenanceView {
        ProvenanceView {
            source_name_mode: self.source_name_mode,
            source_label: self.source_label@,
            worksheet_label: self.worksheet_label@,
        }
    }
}

/// The provenance written where nothing is known of the source: the kind
/// `leafnoext`, and `empty_lines` for both names.
pub open spec fn placeholder_provenance() -> ProvenanceView {
    ProvenanceView {
        source_name_mode: NameType::LeafNoExt,
        source_label: "empty_lines"@,
        worksheet_label: "empty_lines"@,
    }
}

impl Provenance {
    /// The provenance written where nothing is known of the source.
    pub fn placeholder() -> (p: Provenance)
        ensures
            p@ == placeholder_provenance(),
    {
        Provenance {
            source_name_mode: NameType::LeafNoExt,
            source_label: "empty_lines".to_owned(),
            worksheet_label: "empty_lines".to_owned(),
        }
    }
}

/// What becomes of a row that has more fields than the header has names.
#[derive(Clone, Copy, Debug, PartialEq, Eq, Structural)]
pub enum RaggedPolicy {
    /// The conversion fails at that row.
    Reject,
    /// The fields without a name are left out.
    Truncate,
}

/// The settings of a conversion.
#[derive(Debug, PartialEq, Eq)]
pub struct Config {
    pub delimiter: char,
    pub provenance: Provenance,
    pub ragged: RaggedPolicy,
}

/// A `Config` as plain values.
#[verifier::ext_equal]
pub struct ConfigView {
    pub delimiter: char,
    pub provenance: ProvenanceView,
    pub ragged: RaggedPolicy,
}

impl View for Config {
    type V = ConfigView;

    open spec fn view(&self) -> ConfigView {
        ConfigView {
            delimiter: self.delimiter,
            provenance: self.provenance@,
            ragged: self.ragged,
        }
    }
}

/// The settings used where only the delimiter is chosen: the placeholder
/// provenance, and rows that are too long are rejected.
pub open spec fn default_config(delimiter: char) -> ConfigView {
    ConfigView {
        delimiter,
        provenance: placeholder_provenance(),
        ragged: RaggedPolicy::Reject,
    }
}

impl Config {
    /// The settings used where only the delimiter is chosen.
    pub fn new(delimiter: char) -> (c: Config)
        ensures
            c@ == default_config(delimiter),
    {
        Config { delimiter, provenance: Provenance::placeholder(), ragged: RaggedPolicy::Reject }
    }
}

} // verus!
