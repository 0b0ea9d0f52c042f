//! Which character encoding an input appears to be in: a guess from a
//! bounded prefix of its bytes, held against a list of accepted labels.

use crate::text::{push_char, texts, to_chars};
use chardetng::EncodingDetector;
use vstd::prelude::*;
use vstd::slice::slice_subrange;

verus! {

/// The most bytes of an input that the detector is shown: 1 MiB.
pub const MAX_SNIFF_BYTES: usize = 1048576;

/// The lower-case form of an ASCII capital; any other character unchanged.
pub open spec fn ascii_lower(c: char) -> char {
    if 'A' <= c && c <= 'Z' {
        ((c as u32) + 32) as char
    } else {
        c
    }
}

/// `s` with its ASCII capitals in lower case: the normal form of a label.
pub open spec fn lowered(s: Seq<char>) -> Seq<char> {
    Seq::new(s.len(), |i: int| ascii_lower(s[i]))
}

/// Two labels name the same encoding when they differ at most in the case of
/// ASCII letters.
pub open spec fn same_label(a: Seq<char>, b: Seq<char>) -> bool {
    lowered(a) == lowered(b)
}

/// Whether `label` is, up to ASCII case, one of the labels of `list`.
pub open spec fn admits(list: Seq<Seq<char>>, label: Seq<char>) -> bool {
    exists|i: int| 0 <= i < list.len() && same_label(#[trigger] list[i], label)
}

/// The thirteen labels that are accepted by default.
pub open spec fn standard_labels() -> Seq<Seq<char>> {
    seq![
        "windows-1252"@,
        "iso-8859-1"@,
        "iso-8859-2"@,
        "mac_roman"@,
        "mac_latin2"@,
        "utf-8"@,
        "utf-8-sig"@,
        "utf-16"@,
        "utf-16be"@,
        "utf-16le"@,
        "utf-32"@,
        "utf-32be"@,
        "utf-32le"@,
    ]
}

/// The part of an input that the detector is shown: all of it, or its first
/// `MAX_SNIFF_BYTES` bytes where it is longer.
pub open spec fn sniff_window(input: Seq<u8>) -> Seq<u8> {
    if input.len() <= MAX_SNIFF_BYTES {
        input
    } else {
        input.take(MAX_SNIFF_BYTES as int)
    }
}

/// The lower-case form of `c` where it is an ASCII capital.
pub fn to_ascii_lower(c: char) -> (r: char)
    ensures
        r == ascii_lower(c),
{
    if 'A' <= c && c <= 'Z' {
        ((c as u8) + 32) as char
    } else {
        c
    }
}

/// Whether every byte of `window` is ASCII and none is the escape control.
pub open spec fn plain_ascii(window: Seq<u8>) -> bool {
    forall|i: int| 0 <= i < window.len() ==> #[trigger] window[i] < 0x80 && window[i] != 0x1b
}

/// The label under which the detector files its best guess for `window`:
/// `complete` tells it that the stream ends with the window, `allow_utf8`
/// that UTF-8 is a permitted answer.
pub uninterp spec fn detected_label(window: Seq<u8>, complete: bool, allow_utf8: bool) -> Seq<char>;

/// A list of accepted encoding labels.
#[derive(Debug, PartialEq, Eq)]
pub struct AllowList {
    pub labels: Vec<String>,
}

impl View for AllowList {
    type V = Seq<Seq<char>>;

    open spec fn view(&self) -> Seq<Seq<char>> {
        texts(self.labels@)
    }
}

/// Why an input was not admitted.
#[derive(Debug, PartialEq, Eq)]
pub enum EncodingError {
    /// The detected label is not on the list; the list is handed back with it.
    Unsupported { detected: String, supported: Vec<String> },
}

/// The detector with the list of labels that it lets pass.
#[derive(Debug, PartialEq, Eq)]
pub struct EncodingSniffer {
    pub allowed: AllowList,
}

/// A label between double quotes.
pub open spec fn quoted(label: Seq<char>) -> Seq<char> {
    "\""@ + label + "\""@
}

/// The labels, each between double quotes, with a comma and a blank between
/// neighbours.
pub open spec fn quoted_list(labels: Seq<Seq<char>>) -> Seq<char>
    decreases labels.len(),
{
    if labels.len() == 0 {
        Seq::empty()
    } else if labels.len() == 1 {
        quoted(labels[0])
    } else {
        quoted_list(labels.drop_last()) + ", "@ + quoted(labels.last())
    }
}

/// What a rejection says: the label that was detected, and the labels that
/// would have been accepted.
pub open spec fn unsupported_message(detected: Seq<char>, supported: Seq<Seq<char>>) -> Seq<
    char,
> {
    "Unsupported encoding: '"@ + detected + "'. Supported encodings are: ["@ + quoted_list(
        supported,
    ) + "]"@
}

/// What is answered for a detected `label` under the list `allowed`.
pub open spec fn verdict(
    allowed: Seq<Seq<char>>,
    label: Seq<char>,
    r: Result<String, EncodingError>,
) -> bool {
    match r {
        Ok(name) => admits(allowed, label) && name@ == lowered(label),
        Err(EncodingError::Unsupported { detected, supported }) => {
            &&& !admits(allowed, label)
            &&& detected@ == label
            &&& texts(supported@) == allowed
        },
    }
}

/// chardetng's `EncodingDetector`: a fresh detector is fed `window` in one
/// piece and asked once for its guess, with no top-level domain as a hint; the
/// result is the name of the encoding it answers with. The guess depends on
/// the bytes and the two flags alone. A window of plain ASCII leaves every
/// candidate untouched, and the detector then answers UTF-8 where that is
/// allowed.
#[verifier::external_body]
fn guess_label(window: &[u8], complete: bool, allow_utf8: bool) -> (label: String)
    ensures
        label@ == detected_label(window@, complete, allow_utf8),
        allow_utf8 && plain_ascii(window@) ==> label@ == "UTF-8"@,
{
    let mut detector = EncodingDetector::new();
    detector.feed(window, complete);
    detector.guess(None, allow_utf8).name().to_string()
}

/// The detector is shown no byte beyond the window: what follows the first
/// `MAX_SNIFF_BYTES` bytes of an input changes nothing.
pub proof fn lemma_window_is_bounded(input: Seq<u8>, more: Seq<u8>)
    ensures
        sniff_window(input).len() <= MAX_SNIFF_BYTES,
        input.len() >= MAX_SNIFF_BYTES ==> sniff_window(input + more) == sniff_window(input),
{
    if input.len() >= MAX_SNIFF_BYTES {
        assert((input + more).take(MAX_SNIFF_BYTES as int) =~= input.take(
            MAX_SNIFF_BYTES as int,
        ));
        assert(input.take(input.len() as int) =~= input);
    }
}

/// The label that the detector gives for UTF-8 is among the default labels.
pub proof fn lemma_utf8_is_standard()
    ensures
        admits(standard_labels(), "UTF-8"@),
{
    reveal_strlit("UTF-8");
    reveal_strlit("utf-8");
    assert(lowered("UTF-8"@) =~= lowered("utf-8"@));
    assert(standard_labels()[5] == "utf-8"@);
    assert(same_label(standard_labels()[5], "UTF-8"@));
}

impl EncodingError {
    /// What the rejection says.
    pub open spec fn message_text(self) -> Seq<char> {
        match self {
            EncodingError::Unsupported { detected, supported } => unsupported_message(
                detected@,
                texts(supported@),
            ),
        }
    }

    /// The rejection in words, for the one who gave the input.
    pub fn message(&self) -> (m: String)
        ensures
            m@ == self.message_text(),
    {
        match self {
            EncodingError::Unsupported { detected, supported } => {
                let mut list = String::new();
                let mut i: usize = 0;
                assert(texts(supported@).take(0) =~= Seq::<Seq<char>>::empty());
                while i < supported.len()
                    invariant
                        i <= supported@.len(),
                        list@ == quoted_list(texts(supported@).take(i as int)),
                    decreases supported@.len() - i,
                {
                    let ghost before = texts(supported@).take(i as int);
                    let ghost next = texts(supported@).take(i + 1);
                    proof {
                        assert(next.drop_last() =~= before);
                        assert(next.last() == supported@[i as int]@);
                        if i == 0 {
                            assert(Seq::<char>::empty() + "\""@ + supported@[i as int]@ + "\""@
                                =~= quoted(next[0]));
                        } else {
                            assert(quoted_list(before) + ", "@ + "\""@ + supported@[i as int]@
                                + "\""@ =~= quoted_list(before) + ", "@ + quoted(next.last()));
                        }
                    }
                    if i > 0 {
                        list.append(", ");
                    }
                    list.append("\"");
                    list.append(supported[i].as_str());
                    list.append("\"");
                    i += 1;
                }
                assert(texts(supported@).take(supported@.len() as int) =~= texts(supported@));
                let mut m = "Unsupported encoding: '".to_owned();
                m.append(detected.as_str());
                m.append("'. Supported encodings are: [");
                m.append(list.as_str());
                m.append("]");
                m
            },
        }
    }
}

/// `label` with its ASCII capitals in lower case.
pub fn normalize_label(label: &str) -> (name: String)
    ensures
        name@ == lowered(label@),
{
    let chars = to_chars(label);
    let mut name = String::new();
    let mut i: usize = 0;
    while i < chars.len()
        invariant
            i <= chars@.len(),
            chars@ == label@,
            name@ == lowered(label@.take(i as int)),
        decreases chars@.len() - i,
    {
        push_char(&mut name, to_ascii_lower(chars[i]));
        assert(lowered(label@.take(i + 1)) =~= lowered(label@.take(i as int)).push(
            ascii_lower(label@[i as int]),
        ));
        i += 1;
    }
    assert(label@.take(label@.len() as int) =~= label@);
    name
}

/// Whether two labels are equal up to the case of ASCII letters.
pub fn labels_match(a: &str, b: &str) -> (r: bool)
    ensures
        r == same_label(a@, b@),
{
    let x = to_chars(a);
    let y = to_chars(b);
    if x.len() != y.len() {
        assert(lowered(a@).len() != lowered(b@).len());
        return false;
    }
    let mut i: usize = 0;
    while i < x.len()
        invariant
            i <= x@.len(),
            x@ == a@,
            y@ == b@,
            x@.len() == y@.len(),
            forall|j: int| 0 <= j < i ==> ascii_lower(a@[j]) == ascii_lower(b@[j]),
        decreases x@.len() - i,
    {
        if to_ascii_lower(x[i]) != to_ascii_lower(y[i]) {
            assert(lowered(a@)[i as int] != lowered(b@)[i as int]);
            return false;
        }
        i += 1;
    }
    assert(lowered(a@) =~= lowered(b@));
    true
}

impl AllowList {
    /// The list of the thirteen labels accepted by default.
    pub fn standard() -> (list: AllowList)
        ensures
            list@ == standard_labels(),
    {
        let mut labels: Vec<String> = Vec::new();
        labels.push("windows-1252".to_owned());
        labels.push("iso-8859-1".to_owned());
        labels.push("iso-8859-2".to_owned());
        labels.push("mac_roman".to_owned());
        labels.push("mac_latin2".to_owned());
        labels.push("utf-8".to_owned());
        labels.push("utf-8-sig".to_owned());
        labels.push("utf-16".to_owned());
        labels.push("utf-16be".to_owned());
        labels.push("utf-16le".to_owned());
        labels.push("utf-32".to_owned());
        labels.push("utf-32be".to_owned());
        labels.push("utf-32le".to_owned());
        assert(texts(labels@) =~= standard_labels());
        AllowList { labels }
    }

    /// Whether `label` is on the list, up to the case of ASCII letters.
    pub fn admits_label(&self, label: &str) -> (r: bool)
        ensures
            r == admits(self@, label@),
    {
        let mut i: usize = 0;
        while i < self.labels.len()
            invariant
                i <= self.labels@.len(),
                forall|j: int| 0 <= j < i ==> !same_label(#[trigger] self@[j], label@),
            decreases self.labels@.len() - i,
        {
            if labels_match(self.labels[i].as_str(), label) {
                assert(same_label(self@[i as int], label@));
                return true;
            }
            i += 1;
        }
        false
    }

    /// A copy of the labels, in the order of the list.
    pub fn to_labels(&self) -> (labels: Vec<String>)
        ensures
            texts(labels@) == self@,
    {
        let mut labels: Vec<String> = Vec::new();
        let mut i: usize = 0;
        while i < self.labels.len()
            invariant
                i <= self.labels@.len(),
                texts(labels@) == self@.take(i as int),
            decreases self.labels@.len() - i,
        {
            let ghost copied = texts(labels@);
            let label = self.labels[i].clone();
            labels.push(label);
            assert(texts(labels@) =~= copied.push(self@[i as int]));
            assert(self@.take(i + 1) =~= self@.take(i as int).push(self@[i as int]));
            i += 1;
        }
        assert(self@.take(self@.len() as int) =~= self@);
        labels
    }
}

/// Whether `encoding` is one of the thirteen labels accepted by default, up
/// to the case of ASCII letters.
pub fn is_supported_encoding(encoding: &str) -> (r: bool)
    ensures
        r == admits(standard_labels(), encoding@),
{
    AllowList::standard().admits_label(encoding)
}

/// The answer for a label that the detector has given: the label in
/// its normal form where `allowed` holds it, else the rejection, which
/// carries the label as detected and the whole list.
pub fn validate_label(label: &str, allowed: &AllowList) -> (r: Result<String, EncodingError>)
    ensures
        verdict(allowed@, label@, r),
{
    if allowed.admits_label(label) {
        Ok(normalize_label(label))
    } else {
        Err(
            EncodingError::Unsupported {
                detected: label.to_owned(),
                supported: allowed.to_labels(),
            },
        )
    }
}

/// The first `MAX_SNIFF_BYTES` bytes of `input`, or all of it where it is
/// shorter.
pub fn window_of(input: &[u8]) -> (window: &[u8])
    ensures
        window@ == sniff_window(input@),
{
    if input.len() <= MAX_SNIFF_BYTES {
        input
    } else {
        slice_subrange(input, 0, MAX_SNIFF_BYTES)
    }
}

impl EncodingSniffer {
    /// A sniffer that lets the labels of `allowed` pass.
    pub fn new(allowed: AllowList) -> (sniffer: EncodingSniffer)
        ensures
            sniffer.allowed == allowed,
    {
        EncodingSniffer { allowed }
    }

    /// A sniffer with the default list.
    pub fn standard() -> (sniffer: EncodingSniffer)
        ensures
            sniffer.allowed@ == standard_labels(),
    {
        EncodingSniffer { allowed: AllowList::standard() }
    }

    /// Guesses the encoding of `input` from its window and holds the guess
    /// against the list: the normal form of the label where the list has it,
    /// else the rejection.
    pub fn detect(&self, input: &[u8]) -> (r: Result<String, EncodingError>)
        ensures
            verdict(self.allowed@, detected_label(sniff_window(input@), true, true), r),
            plain_ascii(sniff_window(input@)) ==> detected_label(
                sniff_window(input@),
                true,
                true,
            ) == "UTF-8"@,
    {
        let label = guess_label(window_of(input), true, true);
        validate_label(label.as_str(), &self.allowed)
    }
}

/// Holds `input` against the default list: the detected label in its normal
/// form where the list has it, which it always has for plain ASCII; else the
/// rejection.
pub fn check_encoding(input: &[u8]) -> (r: Result<String, EncodingError>)
    ensures
        verdict(standard_labels(), detected_label(sniff_window(input@), true, true), r),
        plain_ascii(sniff_window(input@)) ==> r is Ok,
{
    proof {
        lemma_utf8_is_standard();
    }
    EncodingSniffer::standard().detect(input)
}

} // verus!
