//! The events that a document is made of, and the events of a table.

use crate::options::{Provenance, ProvenanceView};
use crate::text::{decimal, decimal_string, texts};
use vstd::prelude::*;

verus! {

/// A name with a value, as it stands in an opening tag.
#[derive(Debug, PartialEq, Eq)]
pub struct Attribute {
    pub key: String,
    pub value: String,
}

/// An `Attribute` as plain values.
#[verifier::ext_equal]
pub struct AttributeView {
    pub key: Seq<char>,
    pub value: Seq<char>,
}

impl View for Attribute {
    type V = AttributeView;

    open spec fn view(&self) -> AttributeView {
        AttributeView { key: self.key@, value: self.value@ }
    }
}

/// One structural token of a document.
#[derive(Debug, PartialEq, Eq)]
pub enum XmlEvent {
    /// The declaration that opens the document.
    Declaration { version: String, encoding: String },
    /// The opening tag of an element.
    Start { name: String, attributes: Vec<Attribute> },
    /// Character data, not yet escaped.
    Text { content: String },
    /// The closing tag of an element.
    End { name: String },
}

/// An `XmlEvent` as plain values.
#[verifier::ext_equal]
pub enum XmlEventView {
    Declaration { version: Seq<char>, encoding: Seq<char> },
    Start { name: Seq<char>, attributes: Seq<AttributeView> },
    Text { content: Seq<char> },
    End { name: Seq<char> },
}

/// The view of each item of `s`, in order.
pub open spec fn views<T: View>(s: Seq<T>) -> Seq<T::V> {
    Seq::new(s.len(), |i: int| s[i]@)
}

impl View for XmlEvent {
    type V = XmlEventView;

    open spec fn view(&self) -> XmlEventView {
        match self {
            XmlEvent::Declaration { version, encoding } => XmlEventView::Declaration {
                version: version@,
                encoding: encoding@,
            },
            XmlEvent::Start { name, attributes } => XmlEventView::Start {
                name: name@,
                attributes: views(attributes@),
            },
            XmlEvent::Text { content } => XmlEventView::Text { content: content@ },
            XmlEvent::End { name } => XmlEventView::End { name: name@ },
        }
    }
}

/// An opening tag without attributes.
pub open spec fn start(name: Seq<char>) -> XmlEventView {
    XmlEventView::Start { name, attributes: Seq::empty() }
}

/// An opening tag with one attribute.
pub open spec fn start_with(name: Seq<char>, key: Seq<char>, value: Seq<char>) -> XmlEventView {
    XmlEventView::Start { name, attributes: seq![AttributeView { key, value }] }
}

/// Character data.
pub open spec fn text(content: Seq<char>) -> XmlEventView {
    XmlEventView::Text { content }
}

/// A closing tag.
pub open spec fn end(name: Seq<char>) -> XmlEventView {
    XmlEventView::End { name }
}

/// The events of the field at `position`, counted from one: a `Field` that
/// holds the name and the content, each marked with the position.
pub open spec fn field_events(position: nat, name: Seq<char>, content: Seq<char>) -> Seq<
    XmlEventView,
> {
    seq![
        start("Field"@),
        start_with("FieldName"@, "pos"@, decimal(position)),
        text(name),
        end("FieldName"@),
        start_with("FieldContent"@, "pos"@, decimal(position)),
        text(content),
        end("FieldContent"@),
        end("Field"@),
    ]
}

/// The events of the fields of `row`, in order, each with the name that the
/// header has at its position.
pub open spec fn fields_events(header: Seq<Seq<char>>, row: Seq<Seq<char>>) -> Seq<XmlEventView>
    recommends
        row.len() <= header.len(),
    decreases row.len(),
{
    if row.len() == 0 {
        Seq::empty()
    } else {
        fields_events(header, row.drop_last()) + field_events(
            row.len(),
            header[row.len() - 1],
            row.last(),
        )
    }
}

/// The events that close a row: where it comes from.
pub open spec fn provenance_events(provenance: ProvenanceView) -> Seq<XmlEventView> {
    seq![
        start_with("Source"@, "nametype"@, provenance.source_name_mode.word()),
        text(provenance.source_label),
        end("Source"@),
        start("Worksheet"@),
        text(provenance.worksheet_label),
        end("Worksheet"@),
    ]
}

/// The events of one data row: a `Row` that holds its fields and then its
/// provenance.
pub open spec fn row_events(
    header: Seq<Seq<char>>,
    row: Seq<Seq<char>>,
    provenance: ProvenanceView,
) -> Seq<XmlEventView>
    recommends
        row.len() <= header.len(),
{
    seq![start("Row"@)] + fields_events(header, row) + provenance_events(provenance) + seq![
        end("Row"@),
    ]
}

/// The events of the rows, one row after the other.
pub open spec fn rows_events(
    header: Seq<Seq<char>>,
    rows: Seq<Seq<Seq<char>>>,
    provenance: ProvenanceView,
) -> Seq<XmlEventView>
    decreases rows.len(),
{
    if rows.len() == 0 {
        Seq::empty()
    } else {
        rows_events(header, rows.drop_last(), provenance) + row_events(
            header,
            rows.last(),
            provenance,
        )
    }
}

/// The events before the first row: the declaration and the opened root.
pub open spec fn prolog_events() -> Seq<XmlEventView> {
    seq![
        XmlEventView::Declaration { version: "1.0"@, encoding: "UTF-8"@ },
        start("Document"@),
    ]
}

/// The events after the last row: the closed root.
pub open spec fn epilog_events() -> Seq<XmlEventView> {
    seq![end("Document"@)]
}

/// The events of a whole document.
pub open spec fn document_events(
    header: Seq<Seq<char>>,
    rows: Seq<Seq<Seq<char>>>,
    provenance: ProvenanceView,
) -> Seq<XmlEventView> {
    prolog_events() + rows_events(header, rows, provenance) + epilog_events()
}

/// Whether `event` opens an element called `name`.
pub open spec fn opens(event: XmlEventView, name: Seq<char>) -> bool {
    match event {
        XmlEventView::Start { name: n, .. } => n == name,
        _ => false,
    }
}

/// How many elements called `name` are opened in `events`.
pub open spec fn count_opened(events: Seq<XmlEventView>, name: Seq<char>) -> nat
    decreases events.len(),
{
    if events.len() == 0 {
        0
    } else {
        count_opened(events.drop_last(), name) + if opens(events.last(), name) {
            1nat
        } else {
            0nat
        }
    }
}

proof fn lemma_count_push(events: Seq<XmlEventView>, event: XmlEventView, name: Seq<char>)
    ensures
        count_opened(events.push(event), name) == count_opened(events, name) + if opens(
            event,
            name,
        ) {
            1nat
        } else {
            0nat
        },
{
    assert(events.push(event).drop_last() =~= events);
}

/// What is opened in two runs of events is what is opened in either.
pub proof fn lemma_count_concat(a: Seq<XmlEventView>, b: Seq<XmlEventView>, name: Seq<char>)
    ensures
        count_opened(a + b, name) == count_opened(a, name) + count_opened(b, name),
    decreases b.len(),
{
    if b.len() == 0 {
        assert(a + b =~= a);
    } else {
        lemma_count_concat(a, b.drop_last(), name);
        assert((a + b).drop_last() =~= a + b.drop_last());
        assert((a + b).last() == b.last());
    }
}

proof fn lemma_names_differ()
    ensures
        "Row"@ != "Field"@,
        "Row"@ != "FieldName"@,
        "Row"@ != "FieldContent"@,
        "Row"@ != "Source"@,
        "Row"@ != "Worksheet"@,
        "Row"@ != "Document"@,
        "Field"@ != "FieldName"@,
        "Field"@ != "FieldContent"@,
        "Field"@ != "Source"@,
        "Field"@ != "Worksheet"@,
        "Field"@ != "Document"@,
{
    reveal_strlit("Row");
    reveal_strlit("Field");
    reveal_strlit("FieldName");
    reveal_strlit("FieldContent");
    reveal_strlit("Source");
    reveal_strlit("Worksheet");
    reveal_strlit("Document");
    assert("Row"@.len() == 3);
    assert("Field"@.len() == 5);
    assert("FieldName"@.len() == 9);
    assert("FieldContent"@.len() == 12);
    assert("Source"@.len() == 6);
    assert("Worksheet"@.len() == 9);
    assert("Document"@.len() == 8);
}

proof fn lemma_field_counts(position: nat, name: Seq<char>, content: Seq<char>)
    ensures
        count_opened(field_events(position, name, content), "Field"@) == 1,
        count_opened(field_events(position, name, content), "Row"@) == 0,
{
    lemma_names_differ();
    let e = field_events(position, name, content);
    let s0 = Seq::<XmlEventView>::empty();
    let s1 = s0.push(e[0]);
    let s2 = s1.push(e[1]);
    let s3 = s2.push(e[2]);
    let s4 = s3.push(e[3]);
    let s5 = s4.push(e[4]);
    let s6 = s5.push(e[5]);
    let s7 = s6.push(e[6]);
    let s8 = s7.push(e[7]);
    assert(s8 =~= e);
    lemma_count_push(s0, e[0], "Field"@);
    lemma_count_push(s1, e[1], "Field"@);
    lemma_count_push(s2, e[2], "Field"@);
    lemma_count_push(s3, e[3], "Field"@);
    lemma_count_push(s4, e[4], "Field"@);
    lemma_count_push(s5, e[5], "Field"@);
    lemma_count_push(s6, e[6], "Field"@);
    lemma_count_push(s7, e[7], "Field"@);
    lemma_count_push(s0, e[0], "Row"@);
    lemma_count_push(s1, e[1], "Row"@);
    lemma_count_push(s2, e[2], "Row"@);
    lemma_count_push(s3, e[3], "Row"@);
    lemma_count_push(s4, e[4], "Row"@);
    lemma_count_push(s5, e[5], "Row"@);
    lemma_count_push(s6, e[6], "Row"@);
    lemma_count_push(s7, e[7], "Row"@);
}

proof fn lemma_provenance_counts(provenance: ProvenanceView)
    ensures
        count_opened(provenance_events(provenance), "Field"@) == 0,
        count_opened(provenance_events(provenance), "Row"@) == 0,
{
    lemma_names_differ();
    let e = provenance_events(provenance);
    let s0 = Seq::<XmlEventView>::empty();
    let s1 = s0.push(e[0]);
    let s2 = s1.push(e[1]);
    let s3 = s2.push(e[2]);
    let s4 = s3.push(e[3]);
    let s5 = s4.push(e[4]);
    let s6 = s5.push(e[5]);
    assert(s6 =~= e);
    lemma_count_push(s0, e[0], "Field"@);
    lemma_count_push(s1, e[1], "Field"@);
    lemma_count_push(s2, e[2], "Field"@);
    lemma_count_push(s3, e[3], "Field"@);
    lemma_count_push(s4, e[4], "Field"@);
    lemma_count_push(s5, e[5], "Field"@);
    lemma_count_push(s0, e[0], "Row"@);
    lemma_count_push(s1, e[1], "Row"@);
    lemma_count_push(s2, e[2], "Row"@);
    lemma_count_push(s3, e[3], "Row"@);
    lemma_count_push(s4, e[4], "Row"@);
    lemma_count_push(s5, e[5], "Row"@);
}

/// The fields of a row come out one after the other, eight events each: the
/// field at the place `i`, counted from zero, is marked with the position
/// `i + 1` and holds the header's name for that place and the row's content.
pub proof fn lemma_fields_in_order(header: Seq<Seq<char>>, row: Seq<Seq<char>>)
    ensures
        fields_events(header, row).len() == 8 * row.len(),
        forall|i: int|
            0 <= i < row.len() ==> #[trigger] fields_events(header, row).subrange(
                8 * i,
                8 * i + 8,
            ) == field_events((i + 1) as nat, header[i], row[i]),
        count_opened(fields_events(header, row), "Field"@) == row.len(),
        count_opened(fields_events(header, row), "Row"@) == 0,
    decreases row.len(),
{
    if row.len() > 0 {
        let before = row.drop_last();
        let last = field_events(row.len(), header[row.len() - 1], row.last());
        lemma_fields_in_order(header, before);
        lemma_field_counts(row.len(), header[row.len() - 1], row.last());
        lemma_count_concat(fields_events(header, before), last, "Field"@);
        lemma_count_concat(fields_events(header, before), last, "Row"@);
        let all = fields_events(header, row);
        assert forall|i: int| 0 <= i < row.len() implies #[trigger] all.subrange(8 * i, 8 * i + 8)
            == field_events((i + 1) as nat, header[i], row[i]) by {
            if i < row.len() - 1 {
                assert(all.subrange(8 * i, 8 * i + 8) =~= fields_events(header, before).subrange(
                    8 * i,
                    8 * i + 8,
                ));
                assert(before[i] == row[i]);
            } else {
                assert(all.subrange(8 * i, 8 * i + 8) =~= last);
            }
        }
    }
}

/// A row opens one `Row`, and in it as many `Field`s as it has fields, in
/// the order and with the positions of the fields.
pub proof fn lemma_row_shape(
    header: Seq<Seq<char>>,
    row: Seq<Seq<char>>,
    provenance: ProvenanceView,
)
    ensures
        count_opened(row_events(header, row, provenance), "Row"@) == 1,
        count_opened(row_events(header, row, provenance), "Field"@) == row.len(),
        row_events(header, row, provenance).len() == 8 * row.len() + 8,
        row_events(header, row, provenance)[0] == start("Row"@),
        row_events(header, row, provenance).last() == end("Row"@),
        forall|i: int|
            0 <= i < row.len() ==> #[trigger] row_events(header, row, provenance).subrange(
                1 + 8 * i,
                9 + 8 * i,
            ) == field_events((i + 1) as nat, header[i], row[i]),
{
    lemma_names_differ();
    lemma_fields_in_order(header, row);
    lemma_provenance_counts(provenance);
    let open = seq![start("Row"@)];
    let fields = fields_events(header, row);
    let tail = provenance_events(provenance);
    let close = seq![end("Row"@)];
    let all = row_events(header, row, provenance);
    lemma_count_push(Seq::empty(), start("Row"@), "Row"@);
    lemma_count_push(Seq::empty(), start("Row"@), "Field"@);
    assert(Seq::<XmlEventView>::empty().push(start("Row"@)) =~= open);
    lemma_count_push(Seq::empty(), end("Row"@), "Row"@);
    lemma_count_push(Seq::empty(), end("Row"@), "Field"@);
    assert(Seq::<XmlEventView>::empty().push(end("Row"@)) =~= close);
    lemma_count_concat(open, fields, "Row"@);
    lemma_count_concat(open + fields, tail, "Row"@);
    lemma_count_concat(open + fields + tail, close, "Row"@);
    lemma_count_concat(open, fields, "Field"@);
    lemma_count_concat(open + fields, tail, "Field"@);
    lemma_count_concat(open + fields + tail, close, "Field"@);
    assert forall|i: int| 0 <= i < row.len() implies #[trigger] all.subrange(1 + 8 * i, 9 + 8 * i)
        == field_events((i + 1) as nat, header[i], row[i]) by {
        assert(all.subrange(1 + 8 * i, 9 + 8 * i) =~= fields.subrange(8 * i, 8 * i + 8));
    }
}

/// The rows open as many `Row`s as there are rows.
pub proof fn lemma_rows_counted(
    header: Seq<Seq<char>>,
    rows: Seq<Seq<Seq<char>>>,
    provenance: ProvenanceView,
)
    ensures
        count_opened(rows_events(header, rows, provenance), "Row"@) == rows.len(),
    decreases rows.len(),
{
    if rows.len() > 0 {
        lemma_rows_counted(header, rows.drop_last(), provenance);
        lemma_row_shape(header, rows.last(), provenance);
        lemma_count_concat(
            rows_events(header, rows.drop_last(), provenance),
            row_events(header, rows.last(), provenance),
            "Row"@,
        );
    }
}

/// A document opens as many `Row`s as the table has data rows.
pub proof fn lemma_document_rows_counted(
    header: Seq<Seq<char>>,
    rows: Seq<Seq<Seq<char>>>,
    provenance: ProvenanceView,
)
    ensures
        count_opened(document_events(header, rows, provenance), "Row"@) == rows.len(),
{
    lemma_names_differ();
    lemma_rows_counted(header, rows, provenance);
    let p = prolog_events();
    let e = epilog_events();
    lemma_count_push(Seq::empty(), p[0], "Row"@);
    lemma_count_push(Seq::<XmlEventView>::empty().push(p[0]), p[1], "Row"@);
    assert(Seq::<XmlEventView>::empty().push(p[0]).push(p[1]) =~= p);
    lemma_count_push(Seq::empty(), e[0], "Row"@);
    assert(Seq::<XmlEventView>::empty().push(e[0]) =~= e);
    lemma_count_concat(p, rows_events(header, rows, provenance), "Row"@);
    lemma_count_concat(p + rows_events(header, rows, provenance), e, "Row"@);
}

impl XmlEvent {
    /// An opening tag without attributes.
    pub fn start(name: &str) -> (e: XmlEvent)
        ensures
            e@ == start(name@),
    {
        let e = XmlEvent::Start { name: name.to_owned(), attributes: Vec::new() };
        assert(e@ =~~= start(name@));
        e
    }

    /// An opening tag with one attribute.
    pub fn start_with(name: &str, key: &str, value: &str) -> (e: XmlEvent)
        ensures
            e@ == start_with(name@, key@, value@),
    {
        let mut attributes: Vec<Attribute> = Vec::new();
        attributes.push(Attribute { key: key.to_owned(), value: value.to_owned() });
        let e = XmlEvent::Start { name: name.to_owned(), attributes };
        assert(e@ =~~= start_with(name@, key@, value@));
        e
    }

    /// Character data.
    pub fn text(content: &str) -> (e: XmlEvent)
        ensures
            e@ == text(content@),
    {
        XmlEvent::Text { content: content.to_owned() }
    }

    /// A closing tag.
    pub fn end(name: &str) -> (e: XmlEvent)
        ensures
            e@ == end(name@),
    {
        XmlEvent::End { name: name.to_owned() }
    }
}

/// Appends the events of the field at `position` to `events`.
pub fn push_field(events: &mut Vec<XmlEvent>, position: usize, name: &str, content: &str)
    ensures
        views(final(events)@) == views(old(events)@) + field_events(
            position as nat,
            name@,
            content@,
        ),
{
    let ghost before = views(events@);
    let pos = decimal_string(position);
    events.push(XmlEvent::start("Field"));
    events.push(XmlEvent::start_with("FieldName", "pos", pos.as_str()));
    events.push(XmlEvent::text(name));
    events.push(XmlEvent::end("FieldName"));
    events.push(XmlEvent::start_with("FieldContent", "pos", pos.as_str()));
    events.push(XmlEvent::text(content));
    events.push(XmlEvent::end("FieldContent"));
    events.push(XmlEvent::end("Field"));
    assert(views(events@) =~= before + field_events(position as nat, name@, content@));
}

/// Appends the events that close a row to `events`.
pub fn push_provenance(events: &mut Vec<XmlEvent>, provenance: &Provenance)
    ensures
        views(final(events)@) == views(old(events)@) + provenance_events(provenance@),
{
    let ghost before = views(events@);
    events.push(
        XmlEvent::start_with("Source", "nametype", provenance.source_name_mode.as_str()),
    );
    events.push(XmlEvent::text(provenance.source_label.as_str()));
    events.push(XmlEvent::end("Source"));
    events.push(XmlEvent::start("Worksheet"));
    events.push(XmlEvent::text(provenance.worksheet_label.as_str()));
    events.push(XmlEvent::end("Worksheet"));
    assert(views(events@) =~= before + provenance_events(provenance@));
}

/// The events of one data row, or `None` where the row has a field for
/// which `header` has no name.
pub fn row_to_events(header: &Vec<String>, row: &Vec<String>, provenance: &Provenance) -> (events:
    Option<Vec<XmlEvent>>)
    ensures
        events is Some <==> row@.len() <= header@.len(),
        events matches Some(e) ==> views(e@) == row_events(
            texts(header@),
            texts(row@),
            provenance@,
        ),
{
    if row.len() > header.len() {
        return None;
    }
    let mut events: Vec<XmlEvent> = Vec::new();
    events.push(XmlEvent::start("Row"));
    assert(views(events@) =~= seq![start("Row"@)]);
    let mut i: usize = 0;
    while i < row.len()
        invariant
            i <= row@.len() <= header@.len(),
            views(events@) == seq![start("Row"@)] + fields_events(
                texts(header@),
                texts(row@).take(i as int),
            ),
        decreases row@.len() - i,
    {
        push_field(&mut events, i + 1, header[i].as_str(), row[i].as_str());
        proof {
            let next = texts(row@).take(i + 1);
            assert(next.drop_last() =~= texts(row@).take(i as int));
            assert(next.last() == row@[i as int]@);
            assert(texts(header@)[i as int] == header@[i as int]@);
            assert(views(events@) =~= seq![start("Row"@)] + fields_events(texts(header@), next));
        }
        i += 1;
    }
    assert(texts(row@).take(row@.len() as int) =~= texts(row@));
    let ghost before = views(events@);
    push_provenance(&mut events, provenance);
    events.push(XmlEvent::end("Row"));
    assert(views(events@) =~= before + provenance_events(provenance@) + seq![end("Row"@)]);
    Some(events)
}

} // verus!
