use csv2xml::encoding::EncodingError;
use csv2xml::pipeline::{run, RunError};
use csv2xml::transcoder::{convert, TranscodeError};

#[test]
fn an_admitted_input_is_converted() {
    let input = "name,age\nAlice,30\nBob,25\n";
    let out = run(input.as_bytes(), ',');
    assert!(matches!(out, Ok(ref bytes) if *bytes == convert(input, ',').unwrap()));
}

#[test]
fn an_empty_input_gives_the_empty_root() {
    let out = run(b"", '\t');
    let empty = b"<?xml version=\"1.0\" encoding=\"UTF-8\"?>\n<Document>\n</Document>";
    assert!(matches!(out, Ok(ref bytes) if bytes == empty));
}

#[test]
fn a_rejected_input_is_not_converted() {
    // "これは日本語のテキストです。" in Shift_JIS, twice, after a header.
    let once: [u8; 28] = [
        0x82, 0xb1, 0x82, 0xea, 0x82, 0xcd, 0x93, 0xfa, 0x96, 0x7b, 0x8c, 0xea, 0x82, 0xcc, 0x83,
        0x65, 0x83, 0x4c, 0x83, 0x58, 0x83, 0x67, 0x82, 0xc5, 0x82, 0xb7, 0x81, 0x42,
    ];
    let mut bytes = b"a\n".to_vec();
    bytes.extend_from_slice(&once);
    bytes.extend_from_slice(&once);
    match run(&bytes, ',') {
        Err(RunError::Encoding(EncodingError::Unsupported { detected, .. })) => {
            assert_eq!(detected, "Shift_JIS");
        }
        _ => panic!("Shift_JIS must be rejected before the conversion"),
    }
}

#[test]
fn an_admitted_input_that_is_not_utf8_fails_in_the_conversion() {
    let bytes = b"name\nCaf\xe9 cr\xe8me, d\xe9j\xe0 vu, na\xefve fa\xe7ade\n";
    let out = run(bytes, ',');
    assert!(matches!(out, Err(RunError::NotUtf8)));
    assert_eq!(out.unwrap_err().message(), "The input is not valid UTF-8.");
}

#[test]
fn a_long_row_stops_an_admitted_input() {
    let out = run(b"a,b\n1,2,3\n", ',');
    match out {
        Err(RunError::Transcode(e)) => {
            assert_eq!(e, TranscodeError::Structure { row: 1, position: 3 });
            assert_eq!(
                RunError::Transcode(e).message(),
                "Row 1 has a field at position 3 for which the header has no name."
            );
        }
        _ => panic!("the long row must stop the conversion"),
    }
}
