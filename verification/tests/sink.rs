use csv2xml::event::{Attribute, XmlEvent};
use csv2xml::sink::render;

fn text_of(events: &Vec<XmlEvent>, pad: u8, unit: usize) -> String {
    String::from_utf8(render(events, pad, unit).expect("the events can be written")).unwrap()
}

fn attribute(key: &str, value: &str) -> Attribute {
    Attribute { key: key.to_string(), value: value.to_string() }
}

#[test]
fn tags_go_on_lines_of_their_own() {
    let events = vec![
        XmlEvent::Declaration { version: "1.1".to_string(), encoding: "latin1".to_string() },
        XmlEvent::start("a"),
        XmlEvent::start("b"),
        XmlEvent::end("b"),
        XmlEvent::start("c"),
        XmlEvent::text("t"),
        XmlEvent::end("c"),
        XmlEvent::end("a"),
    ];
    assert_eq!(
        text_of(&events, b' ', 2),
        "<?xml version=\"1.1\" encoding=\"latin1\"?>\n<a>\n  <b>\n  </b>\n  <c>t</c>\n</a>"
    );
    assert_eq!(
        text_of(&events, b'\t', 1),
        "<?xml version=\"1.1\" encoding=\"latin1\"?>\n<a>\n\t<b>\n\t</b>\n\t<c>t</c>\n</a>"
    );
    assert_eq!(
        text_of(&events, b'.', 0),
        "<?xml version=\"1.1\" encoding=\"latin1\"?>\n<a>\n<b>\n</b>\n<c>t</c>\n</a>"
    );
}

#[test]
fn attribute_values_are_escaped_further_than_text() {
    let events = vec![
        XmlEvent::Start {
            name: "a".to_string(),
            attributes: vec![
                attribute("k", "<>&'\""),
                attribute("empty", ""),
                attribute("white", "x\ty\nz\rw v"),
            ],
        },
        XmlEvent::text("<>&'\"\ty\nz\rw v"),
        XmlEvent::end("a"),
    ];
    assert_eq!(
        text_of(&events, b' ', 4),
        "<a k=\"&lt;&gt;&amp;&apos;&quot;\" empty=\"\" white=\"x&#9;y&#10;z&#13;w v\">\
         &lt;&gt;&amp;&apos;&quot;\ty\nz&#13;w v</a>"
    );
}

#[test]
fn text_leaves_no_break_pending() {
    let events = vec![
        XmlEvent::start("a"),
        XmlEvent::text(""),
        XmlEvent::start("b"),
        XmlEvent::text("x"),
        XmlEvent::text("y"),
        XmlEvent::end("b"),
        XmlEvent::end("a"),
    ];
    assert_eq!(text_of(&events, b' ', 4), "<a><b>xy</b>\n</a>");
}

#[test]
fn closing_tags_do_not_go_beyond_the_margin() {
    let events = vec![XmlEvent::end("a"), XmlEvent::end("b"), XmlEvent::start("c")];
    assert_eq!(text_of(&events, b' ', 4), "</a>\n</b>\n<c>");
}

#[test]
fn deep_nesting_is_indented_all_the_way() {
    let depth = 70;
    let mut events = Vec::new();
    for _ in 0..depth {
        events.push(XmlEvent::start("n"));
    }
    for _ in 0..depth {
        events.push(XmlEvent::end("n"));
    }
    let mut expected = String::new();
    for level in 0..depth {
        if level > 0 {
            expected.push('\n');
        }
        expected.push_str(&" ".repeat(4 * level));
        expected.push_str("<n>");
    }
    for level in (0..depth).rev() {
        expected.push('\n');
        expected.push_str(&" ".repeat(4 * level));
        expected.push_str("</n>");
    }
    assert_eq!(text_of(&events, b' ', 4), expected);
}

#[test]
fn nothing_is_written_where_it_cannot_be() {
    let events = vec![XmlEvent::start("a"), XmlEvent::end("a")];
    assert_eq!(render(&events, 0x80, 4), None);
    assert_eq!(render(&events, 0xff, 0), None);
    assert_eq!(render(&events, b' ', usize::MAX), None);
    assert_eq!(render(&events, b' ', usize::MAX / 2), None);
    assert_eq!(render(&Vec::new(), b' ', usize::MAX), Some(Vec::new()));
    assert_eq!(render(&Vec::new(), b' ', 4), Some(Vec::new()));
    assert_eq!(render(&events, 0x7f, 1), Some(b"<a>\n</a>".to_vec()));
}
