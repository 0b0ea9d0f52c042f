use csv2xml::options::{Config, NameType, Provenance, RaggedPolicy};
use csv2xml::transcoder::{convert, convert_with, Phase, TranscodeError, Transcoder};

fn text_of(r: Result<Vec<u8>, TranscodeError>) -> String {
    String::from_utf8(r.expect("the conversion succeeds")).expect("the document is UTF-8")
}

const PEOPLE: &str = "<?xml version=\"1.0\" encoding=\"UTF-8\"?>
<Document>
    <Row>
        <Field>
            <FieldName pos=\"1\">name</FieldName>
            <FieldContent pos=\"1\">Alice</FieldContent>
        </Field>
        <Field>
            <FieldName pos=\"2\">age</FieldName>
            <FieldContent pos=\"2\">30</FieldContent>
        </Field>
        <Source nametype=\"leafnoext\">empty_lines</Source>
        <Worksheet>empty_lines</Worksheet>
    </Row>
    <Row>
        <Field>
            <FieldName pos=\"1\">name</FieldName>
            <FieldContent pos=\"1\">Bob</FieldContent>
        </Field>
        <Field>
            <FieldName pos=\"2\">age</FieldName>
            <FieldContent pos=\"2\">25</FieldContent>
        </Field>
        <Source nametype=\"leafnoext\">empty_lines</Source>
        <Worksheet>empty_lines</Worksheet>
    </Row>
</Document>";

#[test]
fn two_rows_with_a_comma() {
    assert_eq!(text_of(convert("name,age\nAlice,30\nBob,25\n", ',')), PEOPLE);
}

#[test]
fn two_rows_with_a_tab_and_carriage_returns() {
    assert_eq!(text_of(convert("name\tage\r\nAlice\t30\r\nBob\t25", '\t')), PEOPLE);
}

#[test]
fn blank_lines_change_nothing() {
    let plain = convert("name,age\nAlice,30\nBob,25\n", ',').unwrap();
    assert_eq!(convert("name,age\n\nAlice,30\nBob,25\n", ',').unwrap(), plain);
    assert_eq!(convert("\n  \nname,age\nAlice,30\n \t \nBob,25\n\n\n", ',').unwrap(), plain);
    assert_eq!(convert("\u{3000}\nname,age\nAlice,30\nBob,25\n\u{a0}", ',').unwrap(), plain);
}

#[test]
fn no_content_gives_an_empty_root() {
    let empty = "<?xml version=\"1.0\" encoding=\"UTF-8\"?>\n<Document>\n</Document>";
    assert_eq!(text_of(convert("", ',')), empty);
    assert_eq!(text_of(convert("\n\n  \n\t\n", ',')), empty);
}

#[test]
fn a_header_alone_gives_an_empty_root() {
    let empty = "<?xml version=\"1.0\" encoding=\"UTF-8\"?>\n<Document>\n</Document>";
    assert_eq!(text_of(convert("a|b|c\n", '|')), empty);
}

#[test]
fn special_characters_are_escaped() {
    let out = text_of(convert("a<b,\"q\"\nx&y,'z'>\rw\n", ','));
    assert!(out.contains("<FieldName pos=\"1\">a&lt;b</FieldName>"));
    assert!(out.contains("<FieldName pos=\"2\">&quot;q&quot;</FieldName>"));
    assert!(out.contains("<FieldContent pos=\"1\">x&amp;y</FieldContent>"));
    assert!(out.contains("<FieldContent pos=\"2\">&apos;z&apos;&gt;&#13;w</FieldContent>"));
}

#[test]
fn a_short_row_has_fewer_fields() {
    let out = text_of(convert("a,b,c\n1\n", ','));
    assert_eq!(out.matches("<Field>").count(), 1);
    assert!(out.contains("<FieldName pos=\"1\">a</FieldName>"));
    assert!(!out.contains("pos=\"2\""));
}

#[test]
fn empty_fields_are_kept() {
    let out = text_of(convert("a,b,c\n1,,3\n", ','));
    assert_eq!(out.matches("<Field>").count(), 3);
    assert!(out.contains("<FieldContent pos=\"2\"></FieldContent>"));
}

#[test]
fn empty_cells_at_either_end_of_a_row_are_kept() {
    let out = text_of(convert("a\tb\tc\n1\t\t\n\tx\ty\n", '\t'));
    assert_eq!(out.matches("<Row>").count(), 2);
    assert_eq!(out.matches("<Field>").count(), 6);
    let first = &out[..out.find("</Row>").unwrap()];
    assert!(first.contains("<FieldName pos=\"1\">a</FieldName>"));
    assert!(first.contains("<FieldContent pos=\"1\">1</FieldContent>"));
    assert!(first.contains("<FieldName pos=\"2\">b</FieldName>"));
    assert!(first.contains("<FieldContent pos=\"2\"></FieldContent>"));
    assert!(first.contains("<FieldName pos=\"3\">c</FieldName>"));
    assert!(first.contains("<FieldContent pos=\"3\"></FieldContent>"));
    let second = &out[out.find("</Row>").unwrap()..];
    assert!(second.contains("<FieldContent pos=\"1\"></FieldContent>"));
    assert!(second.contains("<FieldContent pos=\"2\">x</FieldContent>"));
    assert!(second.contains("<FieldContent pos=\"3\">y</FieldContent>"));
}

#[test]
fn white_space_in_a_field_is_kept() {
    let out = text_of(convert(" a , b \n 1 ,\t2\n", ','));
    assert!(out.contains("<FieldName pos=\"1\"> a </FieldName>"));
    assert!(out.contains("<FieldName pos=\"2\"> b </FieldName>"));
    assert!(out.contains("<FieldContent pos=\"1\"> 1 </FieldContent>"));
    assert!(out.contains("<FieldContent pos=\"2\">\t2</FieldContent>"));
}

#[test]
fn a_line_of_delimiters_that_are_white_space_is_blank() {
    assert_eq!(convert("a\tb\n\t\n1\t2\n", '\t'), convert("a\tb\n1\t2\n", '\t'));
}

#[test]
fn a_long_row_is_rejected() {
    assert_eq!(
        convert("a,b\n1,2\n1,2,3\n", ','),
        Err(TranscodeError::Structure { row: 2, position: 3 })
    );
}

#[test]
fn a_long_row_is_cut_where_asked() {
    let mut config = Config::new(',');
    config.ragged = RaggedPolicy::Truncate;
    let cut = convert_with("a,b\n1,2,3\n", config).unwrap();
    assert_eq!(cut, convert("a,b\n1,2\n", ',').unwrap());
}

#[test]
fn the_provenance_is_written_as_given() {
    let config = Config {
        delimiter: ',',
        provenance: Provenance {
            source_name_mode: NameType::Literal,
            source_label: "people & pets".to_string(),
            worksheet_label: "Sheet1".to_string(),
        },
        ragged: RaggedPolicy::Reject,
    };
    let out = text_of(convert_with("a\n1\n", config));
    assert!(out.contains("\n        <Source nametype=\"literal\">people &amp; pets</Source>"));
    assert!(out.contains("\n        <Worksheet>Sheet1</Worksheet>"));
}

#[test]
fn positions_go_beyond_nine() {
    let out = text_of(convert("a,b,c,d,e,f,g,h,i,j,k\n1,2,3,4,5,6,7,8,9,10,11\n", ','));
    assert!(out.contains("<FieldName pos=\"10\">j</FieldName>"));
    assert!(out.contains("<FieldContent pos=\"11\">11</FieldContent>"));
}

#[test]
fn the_pieces_add_up_to_the_document() {
    let (mut machine, mut out) = Transcoder::start(Config::new(','));
    assert_eq!(machine.phase(), Phase::AwaitingHeader);
    assert_eq!(out, b"<?xml version=\"1.0\" encoding=\"UTF-8\"?>\n<Document>");
    for line in ["", "name,age", "Alice,30", "   ", "Bob,25"] {
        let (next, bytes) = machine.feed_line(line).unwrap();
        out.extend(bytes);
        machine = next;
    }
    assert_eq!(machine.phase(), Phase::Streaming);
    out.extend(machine.finish());
    assert_eq!(String::from_utf8(out).unwrap(), PEOPLE);
}

#[test]
fn each_line_is_answered_with_what_it_adds() {
    let (machine, _) = Transcoder::start(Config::new('|'));
    let (machine, blank) = machine.feed_line(" \t ").unwrap();
    assert!(blank.is_empty());
    assert_eq!(machine.phase(), Phase::AwaitingHeader);
    let (machine, header) = machine.feed_line("a|b").unwrap();
    assert!(header.is_empty());
    assert_eq!(machine.phase(), Phase::Streaming);
    let (machine, row) = machine.feed_line("1").unwrap();
    assert_eq!(
        String::from_utf8(row).unwrap(),
        "\n    <Row>\n        <Field>\n            <FieldName pos=\"1\">a</FieldName>\n            \
         <FieldContent pos=\"1\">1</FieldContent>\n        </Field>\n        \
         <Source nametype=\"leafnoext\">empty_lines</Source>\n        \
         <Worksheet>empty_lines</Worksheet>\n    </Row>"
    );
    let (machine, again) = machine.feed_line("").unwrap();
    assert!(again.is_empty());
    assert_eq!(machine.finish(), b"\n</Document>");
}

#[test]
fn a_rejected_row_is_counted_among_the_rows() {
    let (machine, _) = Transcoder::start(Config::new(','));
    let (machine, _) = machine.feed_line("a,b").unwrap();
    let (machine, _) = machine.feed_line("1,2").unwrap();
    let (machine, _) = machine.feed_line("").unwrap();
    let (machine, _) = machine.feed_line("3").unwrap();
    match machine.feed_line("1,2,3,4") {
        Err(e) => assert_eq!(e, TranscodeError::Structure { row: 3, position: 3 }),
        Ok(_) => panic!("the long row must be rejected"),
    }
}
