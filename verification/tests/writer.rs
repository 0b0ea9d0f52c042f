//! The documents are held against what quick_xml's writer gives when it is
//! handed the events of the table one by one.

use csv2xml::transcoder::convert;
use quick_xml::events::{BytesDecl, BytesEnd, BytesStart, BytesText, Event};
use quick_xml::Writer;

fn leaf(writer: &mut Writer<Vec<u8>>, name: &str, attribute: Option<(&str, &str)>, text: &str) {
    let mut start = BytesStart::new(name);
    if let Some(a) = attribute {
        start.push_attribute(a);
    }
    writer.write_event(Event::Start(start)).unwrap();
    writer.write_event(Event::Text(BytesText::new(text))).unwrap();
    writer.write_event(Event::End(BytesEnd::new(name))).unwrap();
}

/// The document for a table whose rows are no longer than its header.
fn written_directly(input: &str, delimiter: char) -> Vec<u8> {
    let mut writer = Writer::new_with_indent(Vec::new(), b' ', 4);
    writer.write_event(Event::Decl(BytesDecl::new("1.0", Some("UTF-8"), None))).unwrap();
    writer.write_event(Event::Start(BytesStart::new("Document"))).unwrap();
    let mut headers: Vec<String> = Vec::new();
    for line in input.lines() {
        if line.trim().is_empty() {
            continue;
        }
        let fields: Vec<&str> = line.split(delimiter).collect();
        if headers.is_empty() {
            headers = fields.iter().map(|s| s.to_string()).collect();
            continue;
        }
        writer.write_event(Event::Start(BytesStart::new("Row"))).unwrap();
        for (i, field) in fields.iter().enumerate() {
            let pos = (i + 1).to_string();
            writer.write_event(Event::Start(BytesStart::new("Field"))).unwrap();
            leaf(&mut writer, "FieldName", Some(("pos", &pos)), &headers[i]);
            leaf(&mut writer, "FieldContent", Some(("pos", &pos)), field);
            writer.write_event(Event::End(BytesEnd::new("Field"))).unwrap();
        }
        leaf(&mut writer, "Source", Some(("nametype", "leafnoext")), "empty_lines");
        leaf(&mut writer, "Worksheet", None, "empty_lines");
        writer.write_event(Event::End(BytesEnd::new("Row"))).unwrap();
    }
    writer.write_event(Event::End(BytesEnd::new("Document"))).unwrap();
    writer.into_inner()
}

fn same(input: &str, delimiter: char) {
    assert_eq!(
        String::from_utf8(convert(input, delimiter).unwrap()).unwrap(),
        String::from_utf8(written_directly(input, delimiter)).unwrap(),
        "{:?}",
        input
    );
}

#[test]
fn the_document_is_what_the_writer_gives() {
    same("", ',');
    same("\n\n", ',');
    same("name,age\nAlice,30\nBob,25\n", ',');
    same("name\tage\r\nAlice\t30\r\n\r\nBob\t25", '\t');
    same("a|b|c\n1|2\n|\n1||3\n", '|');
    same("  a , b  \n\t1, 2\t\n", ',');
    same("a\tb\tc\n1\t\t\n\tx\ty\n\t\tz\n", '\t');
    same("a,b\r\n1,2\r", ',');
}

#[test]
fn the_escaping_is_what_the_writer_does() {
    same("a<b,c>d,e&f\n\"1\",'2',3\r4\n", ',');
    same("h\n&amp;\n&lt;\n]]>\n<!-- -->\n<?pi?>\n", ',');
    same("h1;h2\nx\ty;\u{7f}\u{1}\n", ';');
    same("<h>&\"'|<h>&\"'\n<c>&\"'|<c>&\"'\n", '|');
}

#[test]
fn text_beyond_ascii_is_what_the_writer_gives() {
    same("näme;größe\nZoë;1,80 m\n日本語;\u{1f600}\n", ';');
    same("a\u{a0}b,c\n\u{3000}1\u{2003},\u{feff}2\n", ',');
    same("é日é日é\n1日2日3\n", '日');
}

#[test]
fn many_rows_and_many_fields() {
    let mut input = String::new();
    for r in 0..60 {
        let fields: Vec<String> = (0..40).map(|c| format!("r{}<c{}>", r, c)).collect();
        input.push_str(&fields.join(","));
        input.push_str(if r % 3 == 0 { "\r\n\n" } else { "\n" });
    }
    same(&input, ',');
}
