use csv2xml::event::{row_to_events, Attribute, XmlEvent};
use csv2xml::options::{Delimiter, NameType, Provenance};

fn strings(items: &[&str]) -> Vec<String> {
    items.iter().map(|s| s.to_string()).collect()
}

fn start_name(e: &XmlEvent) -> Option<&str> {
    match e {
        XmlEvent::Start { name, .. } => Some(name.as_str()),
        _ => None,
    }
}

fn is_start(e: &XmlEvent, wanted: &str, attributes: &[(&str, &str)]) -> bool {
    match e {
        XmlEvent::Start { name, attributes: given } => {
            name == wanted
                && given.len() == attributes.len()
                && given
                    .iter()
                    .zip(attributes)
                    .all(|(a, (k, v))| a.key == *k && a.value == *v)
        }
        _ => false,
    }
}

fn is_text(e: &XmlEvent, wanted: &str) -> bool {
    matches!(e, XmlEvent::Text { content } if content == wanted)
}

fn is_end(e: &XmlEvent, wanted: &str) -> bool {
    matches!(e, XmlEvent::End { name } if name == wanted)
}

#[test]
fn a_row_opens_one_field_for_each_of_its_fields() {
    let header = strings(&["a", "b", "c"]);
    let row = strings(&["1", "2", "3"]);
    let events = row_to_events(&header, &row, &Provenance::placeholder()).unwrap();
    assert_eq!(events.len(), 8 * 3 + 8);
    assert_eq!(events.iter().filter(|e| start_name(e) == Some("Row")).count(), 1);
    assert_eq!(events.iter().filter(|e| start_name(e) == Some("Field")).count(), 3);
    for i in 0..3 {
        let field = &events[1 + 8 * i..9 + 8 * i];
        let pos = (i + 1).to_string();
        assert!(is_start(&field[0], "Field", &[]));
        assert!(is_start(&field[1], "FieldName", &[("pos", &pos)]));
        assert!(is_text(&field[2], &header[i]));
        assert!(is_end(&field[3], "FieldName"));
        assert!(is_start(&field[4], "FieldContent", &[("pos", &pos)]));
        assert!(is_text(&field[5], &row[i]));
        assert!(is_end(&field[6], "FieldContent"));
        assert!(is_end(&field[7], "Field"));
    }
}

#[test]
fn a_row_ends_with_its_provenance() {
    let header = strings(&["a"]);
    let row = strings(&[]);
    let provenance = Provenance {
        source_name_mode: NameType::Leaf,
        source_label: "data.tsv".to_string(),
        worksheet_label: "first".to_string(),
    };
    let events = row_to_events(&header, &row, &provenance).unwrap();
    assert_eq!(events.len(), 8);
    assert!(is_start(&events[0], "Row", &[]));
    assert!(is_start(&events[1], "Source", &[("nametype", "leaf")]));
    assert!(is_text(&events[2], "data.tsv"));
    assert!(is_end(&events[3], "Source"));
    assert!(is_start(&events[4], "Worksheet", &[]));
    assert!(is_text(&events[5], "first"));
    assert!(is_end(&events[6], "Worksheet"));
    assert!(is_end(&events[7], "Row"));
}

#[test]
fn a_row_that_is_too_long_has_no_events() {
    let header = strings(&["a"]);
    let row = strings(&["1", "2"]);
    assert!(row_to_events(&header, &row, &Provenance::placeholder()).is_none());
}

#[test]
fn the_builders_keep_what_they_are_given() {
    assert!(is_start(&XmlEvent::start("Row"), "Row", &[]));
    assert!(is_start(&XmlEvent::start_with("A", "k", "v"), "A", &[("k", "v")]));
    assert!(is_text(&XmlEvent::text("a < b"), "a < b"));
    assert!(is_end(&XmlEvent::end("Row"), "Row"));
    let a = Attribute { key: "pos".to_string(), value: "1".to_string() };
    assert_eq!(a.key, "pos");
}

#[test]
fn the_delimiters_and_the_kinds_of_names() {
    assert_eq!(Delimiter::Comma.as_char(), ',');
    assert_eq!(Delimiter::Pipe.as_char(), '|');
    assert_eq!(Delimiter::Tab.as_char(), '\t');
    assert_eq!(NameType::Absolute.as_str(), "absolute");
    assert_eq!(NameType::Literal.as_str(), "literal");
    assert_eq!(NameType::Leaf.as_str(), "leaf");
    assert_eq!(NameType::LeafNoExt.as_str(), "leafnoext");
    assert_eq!(NameType::NoneType.as_str(), "none");
}
