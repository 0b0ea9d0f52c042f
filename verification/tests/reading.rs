//! The documents are read again with the reader of quick_xml.

use csv2xml::transcoder::convert;
use quick_xml::events::Event;
use quick_xml::escape::resolve_predefined_entity;
use quick_xml::Reader;

/// One leaf element as a reader sees it: its name, its `pos` attribute if it
/// has one, and its text with the references resolved.
#[derive(Debug, PartialEq)]
struct Leaf {
    name: String,
    pos: Option<String>,
    text: String,
}

/// The rows of a document: for each `Row`, the leaves of its `Field`s.
fn read_rows(xml: &[u8]) -> Vec<Vec<Leaf>> {
    let xml = std::str::from_utf8(xml).expect("the document is UTF-8");
    let mut reader = Reader::from_str(xml);
    let mut rows: Vec<Vec<Leaf>> = Vec::new();
    let mut open: Option<Leaf> = None;
    loop {
        match reader.read_event().expect("the document is well formed") {
            Event::Start(e) => {
                let name = e.name().as_ref().to_string();
                if name == "Row" {
                    rows.push(Vec::new());
                    open = None;
                } else if name == "FieldName" || name == "FieldContent" {
                    let mut pos = None;
                    for a in e.attributes() {
                        let a = a.expect("the attribute is well formed");
                        if a.key.as_ref() == "pos" {
                            pos = Some(a.value.to_string());
                        }
                    }
                    open = Some(Leaf { name, pos, text: String::new() });
                } else {
                    open = None;
                }
            }
            Event::Text(t) => {
                if let Some(leaf) = open.as_mut() {
                    leaf.text.push_str(&t);
                }
            }
            Event::GeneralRef(r) => {
                if let Some(leaf) = open.as_mut() {
                    match r.resolve_char_ref().expect("the reference is well formed") {
                        Some(c) => leaf.text.push(c),
                        None => leaf.text.push_str(
                            resolve_predefined_entity(&r).expect("the entity is predefined"),
                        ),
                    }
                }
            }
            Event::End(_) => {
                if let Some(leaf) = open.take() {
                    rows.last_mut().expect("a leaf stands in a row").push(leaf);
                }
            }
            Event::Eof => break,
            _ => {}
        }
    }
    rows
}

fn leaf(name: &str, pos: usize, text: &str) -> Leaf {
    Leaf { name: name.to_string(), pos: Some(pos.to_string()), text: text.to_string() }
}

#[test]
fn a_reader_finds_the_rows_and_the_fields() {
    let out = convert("name,age\nAlice,30\nBob,25\n", ',').unwrap();
    let rows = read_rows(&out);
    assert_eq!(rows.len(), 2);
    assert_eq!(
        rows[0],
        vec![
            leaf("FieldName", 1, "name"),
            leaf("FieldContent", 1, "Alice"),
            leaf("FieldName", 2, "age"),
            leaf("FieldContent", 2, "30"),
        ]
    );
    assert_eq!(
        rows[1],
        vec![
            leaf("FieldName", 1, "name"),
            leaf("FieldContent", 1, "Bob"),
            leaf("FieldName", 2, "age"),
            leaf("FieldContent", 2, "25"),
        ]
    );
}

#[test]
fn a_reader_finds_the_empty_cells_of_a_tab_row() {
    let out = convert("a\tb\tc\n1\t\t\n", '\t').unwrap();
    let rows = read_rows(&out);
    assert_eq!(rows.len(), 1);
    assert_eq!(
        rows[0],
        vec![
            leaf("FieldName", 1, "a"),
            leaf("FieldContent", 1, "1"),
            leaf("FieldName", 2, "b"),
            leaf("FieldContent", 2, ""),
            leaf("FieldName", 3, "c"),
            leaf("FieldContent", 3, ""),
        ]
    );
    let shifted = read_rows(&convert("a\tb\tc\n\tx\ty\n", '\t').unwrap());
    assert_eq!(shifted[0][1], leaf("FieldContent", 1, ""));
    assert_eq!(shifted[0][3], leaf("FieldContent", 2, "x"));
    assert_eq!(shifted[0][5], leaf("FieldContent", 3, "y"));
}

#[test]
fn a_reader_counts_as_many_rows_and_fields_as_the_table_has() {
    let mut input = String::from("c1|c2|c3|c4|c5|c6|c7|c8|c9|c10|c11|c12\n");
    for r in 0..25 {
        let fields: Vec<String> = (1..=12).map(|c| format!("r{}c{}", r, c)).collect();
        input.push_str(&fields.join("|"));
        input.push('\n');
    }
    let rows = read_rows(&convert(&input, '|').unwrap());
    assert_eq!(rows.len(), 25);
    for (r, row) in rows.iter().enumerate() {
        assert_eq!(row.len(), 24);
        for c in 1..=12 {
            assert_eq!(row[2 * (c - 1)], leaf("FieldName", c, &format!("c{}", c)));
            assert_eq!(row[2 * (c - 1) + 1], leaf("FieldContent", c, &format!("r{}c{}", r, c)));
        }
    }
}

#[test]
fn a_reader_gets_back_what_was_escaped() {
    let header = "plain,amp & amp,\"quoted\",<tag>,it's";
    let row = "a < b && c > d,&amp;,say \"hi\",</Field>,'\r'";
    let out = convert(&format!("{}\n{}\n", header, row), ',').unwrap();
    let rows = read_rows(&out);
    assert_eq!(rows.len(), 1);
    let names: Vec<&str> = header.split(',').collect();
    let contents: Vec<&str> = row.split(',').collect();
    for i in 0..5 {
        assert_eq!(rows[0][2 * i], leaf("FieldName", i + 1, names[i]));
        assert_eq!(rows[0][2 * i + 1], leaf("FieldContent", i + 1, contents[i]));
    }
}

#[test]
fn a_reader_gets_back_text_beyond_ascii() {
    let out = convert("näme;größe\nZoë;1,80 m\n日本語;\u{1f600}\n", ';').unwrap();
    let rows = read_rows(&out);
    assert_eq!(rows.len(), 2);
    assert_eq!(rows[0][0], leaf("FieldName", 1, "näme"));
    assert_eq!(rows[0][3], leaf("FieldContent", 2, "1,80 m"));
    assert_eq!(rows[1][1], leaf("FieldContent", 1, "日本語"));
    assert_eq!(rows[1][3], leaf("FieldContent", 2, "\u{1f600}"));
}
