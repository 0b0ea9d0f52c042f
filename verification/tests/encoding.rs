use csv2xml::encoding::{
    check_encoding, is_supported_encoding, labels_match, normalize_label, validate_label,
    window_of, AllowList, EncodingError, EncodingSniffer, MAX_SNIFF_BYTES,
};

const STANDARD: [&str; 13] = [
    "windows-1252",
    "iso-8859-1",
    "iso-8859-2",
    "mac_roman",
    "mac_latin2",
    "utf-8",
    "utf-8-sig",
    "utf-16",
    "utf-16be",
    "utf-16le",
    "utf-32",
    "utf-32be",
    "utf-32le",
];

/// "これは日本語のテキストです。" in Shift_JIS, twice.
fn shift_jis_text() -> Vec<u8> {
    let once: [u8; 28] = [
        0x82, 0xb1, 0x82, 0xea, 0x82, 0xcd, 0x93, 0xfa, 0x96, 0x7b, 0x8c, 0xea, 0x82, 0xcc, 0x83,
        0x65, 0x83, 0x4c, 0x83, 0x58, 0x83, 0x67, 0x82, 0xc5, 0x82, 0xb7, 0x81, 0x42,
    ];
    let mut bytes = once.to_vec();
    bytes.extend_from_slice(&once);
    bytes
}

#[test]
fn plain_ascii_is_admitted() {
    assert_eq!(check_encoding(b"name,age\nAlice,30\nBob,25\n"), Ok("utf-8".to_string()));
}

#[test]
fn empty_input_is_admitted() {
    assert_eq!(check_encoding(b""), Ok("utf-8".to_string()));
}

#[test]
fn an_admitted_label_comes_back_in_lower_case_and_from_the_list() {
    // "Café crème, déjà vu, naïve façade" in windows-1252.
    let western = b"Caf\xe9 cr\xe8me, d\xe9j\xe0 vu, na\xefve fa\xe7ade\n";
    for input in [&b"plain"[..], "näme,größe\nZoë,180\n".as_bytes(), &western[..]] {
        let label = check_encoding(input).expect("the input is admitted");
        assert_eq!(label, label.to_lowercase());
        assert!(STANDARD.contains(&label.as_str()));
    }
    assert_eq!(check_encoding(western), Ok("windows-1252".to_string()));
}

#[test]
fn utf8_text_is_admitted_under_its_normal_label() {
    let label = EncodingSniffer::standard().detect("näme,größe\nZoë,180\n".as_bytes());
    assert!(matches!(label, Ok(l) if l == "utf-8"));
}

#[test]
fn western_text_is_admitted_under_its_normal_label() {
    // "Café crème, déjà vu, naïve façade" in windows-1252.
    let bytes = b"Caf\xe9 cr\xe8me, d\xe9j\xe0 vu, na\xefve fa\xe7ade\n";
    let label = EncodingSniffer::standard().detect(bytes);
    assert!(matches!(label, Ok(l) if l == "windows-1252"));
}

#[test]
fn shift_jis_text_is_rejected() {
    match check_encoding(&shift_jis_text()) {
        Err(EncodingError::Unsupported { detected, supported }) => {
            assert_eq!(detected, "Shift_JIS");
            assert_eq!(supported, STANDARD);
        }
        Ok(_) => panic!("Shift_JIS must not pass"),
    }
}

#[test]
fn only_the_first_mebibyte_is_looked_at() {
    let mut bytes = vec![b'a'; MAX_SNIFF_BYTES];
    bytes.extend_from_slice(&shift_jis_text());
    assert_eq!(window_of(&bytes).len(), MAX_SNIFF_BYTES);
    assert_eq!(window_of(&bytes), &bytes[..MAX_SNIFF_BYTES]);
    assert!(check_encoding(&bytes).is_ok());
    assert_eq!(window_of(b"short"), b"short");
    assert_eq!(MAX_SNIFF_BYTES, 1024 * 1024);
}

#[test]
fn a_small_list_rejects_what_the_default_list_admits() {
    let sniffer = EncodingSniffer::new(AllowList { labels: vec!["utf-16".to_string()] });
    match sniffer.detect(b"plain text") {
        Err(EncodingError::Unsupported { detected, supported }) => {
            assert_eq!(detected, "UTF-8");
            assert_eq!(supported, ["utf-16"]);
        }
        Ok(_) => panic!("UTF-8 is not on this list"),
    }
}

#[test]
fn labels_are_matched_without_regard_to_case() {
    for label in STANDARD {
        assert!(is_supported_encoding(label));
        assert!(is_supported_encoding(&label.to_uppercase()));
    }
    assert!(is_supported_encoding("Windows-1252"));
    assert!(is_supported_encoding("Mac_Roman"));
    assert!(!is_supported_encoding(""));
    assert!(!is_supported_encoding("utf-8 "));
    assert!(!is_supported_encoding("utf8"));
    assert!(!is_supported_encoding("iso-8859-15"));
    assert!(labels_match("UTF-8", "utf-8"));
    assert!(!labels_match("UTF-8", "utf-16"));
    assert!(!labels_match("É", "é"));
    assert_eq!(normalize_label("Shift_JIS"), "shift_jis");
    assert_eq!(normalize_label("ÉA-z"), "Éa-z");
}

#[test]
fn ascii_and_shift_jis_are_not_admitted() {
    let list = AllowList::standard();
    for label in ["ascii", "shift_jis", "Shift_JIS", "EUC-JP", "windows-1251"] {
        match validate_label(label, &list) {
            Err(EncodingError::Unsupported { detected, supported }) => {
                assert_eq!(detected, label);
                assert_eq!(supported, STANDARD);
            }
            Ok(_) => panic!("{} must not pass", label),
        }
    }
    assert!(matches!(validate_label("UTF-8", &list), Ok(l) if l == "utf-8"));
    assert!(matches!(validate_label("ISO-8859-2", &list), Ok(l) if l == "iso-8859-2"));
}

#[test]
fn a_rejection_says_what_was_found_and_what_is_accepted() {
    let rejection = validate_label("Shift_JIS", &AllowList::standard()).unwrap_err();
    assert_eq!(
        rejection.message(),
        "Unsupported encoding: 'Shift_JIS'. Supported encodings are: [\"windows-1252\", \
         \"iso-8859-1\", \"iso-8859-2\", \"mac_roman\", \"mac_latin2\", \"utf-8\", \
         \"utf-8-sig\", \"utf-16\", \"utf-16be\", \"utf-16le\", \"utf-32\", \"utf-32be\", \
         \"utf-32le\"]"
    );
    let empty = validate_label("x", &AllowList { labels: vec![] }).unwrap_err();
    assert_eq!(empty.message(), "Unsupported encoding: 'x'. Supported encodings are: []");
    let one = validate_label("x", &AllowList { labels: vec!["y".to_string()] }).unwrap_err();
    assert_eq!(one.message(), "Unsupported encoding: 'x'. Supported encodings are: [\"y\"]");
}
