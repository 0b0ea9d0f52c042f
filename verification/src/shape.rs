//! The text of a document, letter by letter.

use crate::event::{
    end, field_events, fields_events, provenance_events, start, start_with, text,
    AttributeView, XmlEventView,
};
use crate::markup::{
    attributes_text, escape_text, escape_value, grown,
    layout_after, layout_at, lemma_markup_concat, lemma_markup_single, markup, padding,
    value_entity, Layout,
};
use crate::event::rows_events;
use crate::options::{ConfigView, NameType, ProvenanceView};
use crate::table::{
    data_rows, lemma_document_is_table, lemma_document_text, lemma_empty_document_text,
    lemma_rows_text, records, written_rows,
};
use crate::text::{decimal, digit};
use crate::transcoder::{body_layout, document, row_text, TranscodeError};
use vstd::prelude::*;

verus! {

/// Whether `c` is written as it is in character data and in values.
pub open spec fn is_plain(c: char) -> bool {
    c != '<' && c != '>' && c != '&' && c != '\'' && c != '"' && c != '\r' && c != '\n' && c
        != '\t'
}

/// The text of the field at `position`: the element on a line of its own at
/// eight blanks, the name and the content on lines at twelve.
pub open spec fn field_text(position: nat, name: Seq<char>, content: Seq<char>) -> Seq<char> {
    "\n        <Field>"@ + "\n            <FieldName pos=\""@ + decimal(position) + "\">"@
        + escape_text(name) + "</FieldName>"@ + "\n            <FieldContent pos=\""@ + decimal(
        position,
    ) + "\">"@ + escape_text(content) + "</FieldContent>"@ + "\n        </Field>"@
}

/// The text of the fields of a row, one after the other.
pub open spec fn fields_text(header: Seq<Seq<char>>, row: Seq<Seq<char>>) -> Seq<char>
    decreases row.len(),
{
    if row.len() == 0 {
        Seq::empty()
    } else {
        fields_text(header, row.drop_last()) + field_text(
            row.len(),
            header[row.len() - 1],
            row.last(),
        )
    }
}

/// The text of a row: the element on a line of its own at four blanks, its
/// fields, and the source and the worksheet on lines at eight.
pub open spec fn row_shape(
    header: Seq<Seq<char>>,
    row: Seq<Seq<char>>,
    provenance: ProvenanceView,
) -> Seq<char> {
    "\n    <Row>"@ + fields_text(header, row) + "\n        <Source nametype=\""@
        + provenance.source_name_mode.word() + "\">"@ + escape_text(provenance.source_label)
        + "</Source>"@ + "\n        <Worksheet>"@ + escape_text(provenance.worksheet_label)
        + "</Worksheet>"@ + "\n    </Row>"@
}

/// The text of the rows, one after the other.
pub open spec fn rows_shape(
    header: Seq<Seq<char>>,
    rows: Seq<Seq<Seq<char>>>,
    provenance: ProvenanceView,
) -> Seq<char>
    decreases rows.len(),
{
    if rows.len() == 0 {
        Seq::empty()
    } else {
        rows_shape(header, rows.drop_last(), provenance) + row_shape(
            header,
            rows.last(),
            provenance,
        )
    }
}

proof fn lemma_plain_value(s: Seq<char>)
    requires
        forall|i: int| 0 <= i < s.len() ==> is_plain(#[trigger] s[i]),
    ensures
        escape_value(s) == s,
    decreases s.len(),
{
    if s.len() > 0 {
        let rest = s.drop_first();
        assert forall|i: int| 0 <= i < rest.len() implies is_plain(#[trigger] rest[i]) by {
            assert(rest[i] == s[i + 1]);
        }
        lemma_plain_value(rest);
        assert(is_plain(s[0]));
        assert(value_entity(s[0]) + rest =~= s);
    }
}

proof fn lemma_decimal_is_plain(n: nat)
    ensures
        forall|i: int| 0 <= i < decimal(n).len() ==> is_plain(#[trigger] decimal(n)[i]),
    decreases n,
{
    assert(is_plain(digit(n % 10)));
    if n >= 10 {
        lemma_decimal_is_plain(n / 10);
        let before = decimal(n / 10);
        assert forall|i: int| 0 <= i < decimal(n).len() implies is_plain(
            #[trigger] decimal(n)[i],
        ) by {
            if i < before.len() {
                assert(decimal(n)[i] == before[i]);
            }
        }
    }
}

proof fn lemma_word_is_plain(mode: NameType)
    ensures
        escape_value(mode.word()) == mode.word(),
{
    reveal_strlit("absolute");
    reveal_strlit("literal");
    reveal_strlit("leaf");
    reveal_strlit("leafnoext");
    reveal_strlit("none");
    lemma_plain_value(mode.word());
}

/// The beginning of a tag on a line of its own: the break, the indentation
/// and the name.
spec fn line_head(width: nat, name: Seq<char>) -> Seq<char> {
    "\n"@ + padding(' ', width) + "<"@ + name
}

/// The beginning of an attribute, up to its value.
spec fn value_head(key: Seq<char>) -> Seq<char> {
    " "@ + key + "=\""@
}

/// A closing tag.
spec fn close_tag(name: Seq<char>) -> Seq<char> {
    "</"@ + name + ">"@
}

/// A closing tag on a line of its own.
spec fn close_line(width: nat, name: Seq<char>) -> Seq<char> {
    "\n"@ + padding(' ', width) + close_tag(name)
}

proof fn lemma_leaf_markup(
    layout: Layout,
    name: Seq<char>,
    attributes: Seq<AttributeView>,
    content: Seq<char>,
    closing: Seq<char>,
)
    requires
        layout.pending_break,
        layout.pad == ' ',
    ensures
        layout_at(
            layout,
            seq![XmlEventView::Start { name, attributes }, text(content), end(closing)],
        ) == layout,
        markup(
            layout,
            seq![XmlEventView::Start { name, attributes }, text(content), end(closing)],
        ) == line_head(layout.width, name) + attributes_text(attributes) + ">"@ + escape_text(
            content,
        ) + close_tag(closing),
{
    let open = XmlEventView::Start { name, attributes };
    let l1 = layout_after(layout, open);
    let l2 = layout_after(l1, text(content));
    lemma_markup_single(layout, open);
    lemma_markup_single(l1, text(content));
    lemma_markup_single(l2, end(closing));
    lemma_markup_concat(layout, seq![open], seq![text(content)]);
    lemma_markup_concat(layout, seq![open] + seq![text(content)], seq![end(closing)]);
    assert(seq![open, text(content), end(closing)] =~= seq![open] + seq![text(content)] + seq![
        end(closing),
    ]);
    assert(markup(layout, seq![open, text(content), end(closing)]) =~= line_head(
        layout.width,
        name,
    ) + attributes_text(attributes) + ">"@ + escape_text(content) + close_tag(closing));
}

proof fn lemma_bare_leaf_markup(layout: Layout, name: Seq<char>, content: Seq<char>)
    requires
        layout.pending_break,
        layout.pad == ' ',
    ensures
        layout_at(layout, seq![start(name), text(content), end(name)]) == layout,
        markup(layout, seq![start(name), text(content), end(name)]) == (line_head(
            layout.width,
            name,
        ) + ">"@) + escape_text(content) + close_tag(name),
{
    lemma_leaf_markup(layout, name, Seq::empty(), content, name);
    assert(attributes_text(Seq::empty()) =~= Seq::<char>::empty());
    assert(line_head(layout.width, name) + Seq::<char>::empty() + ">"@ + escape_text(content)
        + close_tag(name) =~= (line_head(layout.width, name) + ">"@) + escape_text(content)
        + close_tag(name));
}

proof fn lemma_marked_leaf_markup(
    layout: Layout,
    name: Seq<char>,
    key: Seq<char>,
    value: Seq<char>,
    content: Seq<char>,
)
    requires
        layout.pending_break,
        layout.pad == ' ',
        escape_value(value) == value,
    ensures
        layout_at(layout, seq![start_with(name, key, value), text(content), end(name)]) == layout,
        markup(layout, seq![start_with(name, key, value), text(content), end(name)]) == (line_head(
            layout.width,
            name,
        ) + value_head(key)) + value + ("\""@ + ">"@) + escape_text(content) + close_tag(name),
{
    let one = seq![AttributeView { key, value }];
    lemma_leaf_markup(layout, name, one, content, name);
    assert(one.drop_last() =~= Seq::<AttributeView>::empty());
    assert(attributes_text(one.drop_last()) =~= Seq::<char>::empty());
    assert(attributes_text(one) =~= value_head(key) + value + "\""@);
    assert(line_head(layout.width, name) + (value_head(key) + value + "\""@) + ">"@
        + escape_text(content) + close_tag(name) =~= (line_head(layout.width, name) + value_head(
        key,
    )) + value + ("\""@ + ">"@) + escape_text(content) + close_tag(name));
}

proof fn lemma_words_of_a_field()
    ensures
        line_head(8, "Field"@) + ">"@ == "\n        <Field>"@,
        line_head(12, "FieldName"@) + value_head("pos"@) == "\n            <FieldName pos=\""@,
        "\""@ + ">"@ == "\">"@,
        close_tag("FieldName"@) == "</FieldName>"@,
        line_head(12, "FieldContent"@) + value_head("pos"@)
            == "\n            <FieldContent pos=\""@,
        close_tag("FieldContent"@) == "</FieldContent>"@,
        close_line(8, "Field"@) == "\n        </Field>"@,
{
    reveal_strlit("\n");
    reveal_strlit("<");
    reveal_strlit(">");
    reveal_strlit("</");
    reveal_strlit(" ");
    reveal_strlit("=\"");
    reveal_strlit("\"");
    reveal_strlit("pos");
    reveal_strlit("Field");
    reveal_strlit("FieldName");
    reveal_strlit("FieldContent");
    reveal_strlit("\n        <Field>");
    reveal_strlit("\n            <FieldName pos=\"");
    reveal_strlit("\">");
    reveal_strlit("</FieldName>");
    reveal_strlit("\n            <FieldContent pos=\"");
    reveal_strlit("</FieldContent>");
    reveal_strlit("\n        </Field>");
    assert(line_head(8, "Field"@) + ">"@ =~= "\n        <Field>"@);
    assert(line_head(12, "FieldName"@) + value_head("pos"@)
        =~= "\n            <FieldName pos=\""@);
    assert("\""@ + ">"@ =~= "\">"@);
    assert(close_tag("FieldName"@) =~= "</FieldName>"@);
    assert(line_head(12, "FieldContent"@) + value_head("pos"@)
        =~= "\n            <FieldContent pos=\""@);
    assert(close_tag("FieldContent"@) =~= "</FieldContent>"@);
    assert(close_line(8, "Field"@) =~= "\n        </Field>"@);
}

proof fn lemma_words_of_a_row()
    ensures
        line_head(4, "Row"@) + ">"@ == "\n    <Row>"@,
        line_head(8, "Source"@) + value_head("nametype"@) == "\n        <Source nametype=\""@,
        "\""@ + ">"@ == "\">"@,
        close_tag("Source"@) == "</Source>"@,
        line_head(8, "Worksheet"@) + ">"@ == "\n        <Worksheet>"@,
        close_tag("Worksheet"@) == "</Worksheet>"@,
        close_line(4, "Row"@) == "\n    </Row>"@,
{
    reveal_strlit("\n");
    reveal_strlit("<");
    reveal_strlit(">");
    reveal_strlit("</");
    reveal_strlit(" ");
    reveal_strlit("=\"");
    reveal_strlit("\"");
    reveal_strlit("nametype");
    reveal_strlit("Row");
    reveal_strlit("Source");
    reveal_strlit("Worksheet");
    reveal_strlit("\n    <Row>");
    reveal_strlit("\n        <Source nametype=\"");
    reveal_strlit("\">");
    reveal_strlit("</Source>");
    reveal_strlit("\n        <Worksheet>");
    reveal_strlit("</Worksheet>");
    reveal_strlit("\n    </Row>");
    assert(line_head(4, "Row"@) + ">"@ =~= "\n    <Row>"@);
    assert(line_head(8, "Source"@) + value_head("nametype"@)
        =~= "\n        <Source nametype=\""@);
    assert("\""@ + ">"@ =~= "\">"@);
    assert(close_tag("Source"@) =~= "</Source>"@);
    assert(line_head(8, "Worksheet"@) + ">"@ =~= "\n        <Worksheet>"@);
    assert(close_tag("Worksheet"@) =~= "</Worksheet>"@);
    assert(close_line(4, "Row"@) =~= "\n    </Row>"@);
}

proof fn lemma_flat_five(
    x: Seq<char>,
    a: Seq<char>,
    b: Seq<char>,
    c: Seq<char>,
    d: Seq<char>,
    e: Seq<char>,
)
    ensures
        x + (a + b + c + d + e) == x + a + b + c + d + e,
{
    assert(x + (a + b + c + d + e) =~= x + a + b + c + d + e);
}

proof fn lemma_field_markup(position: nat, name: Seq<char>, content: Seq<char>)
    ensures
        markup(grown(body_layout()), field_events(position, name, content)) == field_text(
            position,
            name,
            content,
        ),
        layout_at(grown(body_layout()), field_events(position, name, content)) == grown(
            body_layout(),
        ),
{
    let outer = grown(body_layout());
    let inner = grown(outer);
    let number = decimal(position);
    lemma_decimal_is_plain(position);
    lemma_plain_value(number);
    let open = seq![start("Field"@)];
    let first = seq![start_with("FieldName"@, "pos"@, number), text(name), end("FieldName"@)];
    let second = seq![
        start_with("FieldContent"@, "pos"@, number),
        text(content),
        end("FieldContent"@),
    ];
    let close = seq![end("Field"@)];
    assert(field_events(position, name, content) =~= open + first + second + close);
    lemma_markup_single(outer, start("Field"@));
    assert(layout_after(outer, start("Field"@)) == inner);
    lemma_marked_leaf_markup(inner, "FieldName"@, "pos"@, number, name);
    lemma_marked_leaf_markup(inner, "FieldContent"@, "pos"@, number, content);
    lemma_markup_single(inner, end("Field"@));
    lemma_markup_concat(outer, open, first);
    lemma_markup_concat(outer, open + first, second);
    lemma_markup_concat(outer, open + first + second, close);
    let a = markup(outer, open);
    let b = markup(inner, first);
    let c = markup(inner, second);
    let d = markup(inner, close);
    assert(markup(outer, field_events(position, name, content)) == a + b + c + d);
    assert(a == line_head(8, "Field"@) + ">"@) by {
        assert(attributes_text(Seq::empty()) =~= Seq::<char>::empty());
        assert(a =~= line_head(8, "Field"@) + ">"@);
    }
    assert(d == close_line(8, "Field"@)) by {
        assert(d =~= close_line(8, "Field"@));
    }
    lemma_words_of_a_field();
    lemma_flat_five(
        a,
        "\n            <FieldName pos=\""@,
        number,
        "\">"@,
        escape_text(name),
        "</FieldName>"@,
    );
    lemma_flat_five(
        a + b,
        "\n            <FieldContent pos=\""@,
        number,
        "\">"@,
        escape_text(content),
        "</FieldContent>"@,
    );
}

proof fn lemma_fields_markup(header: Seq<Seq<char>>, row: Seq<Seq<char>>)
    ensures
        markup(grown(body_layout()), fields_events(header, row)) == fields_text(header, row),
        layout_at(grown(body_layout()), fields_events(header, row)) == grown(body_layout()),
    decreases row.len(),
{
    if row.len() > 0 {
        lemma_fields_markup(header, row.drop_last());
        lemma_field_markup(row.len(), header[row.len() - 1], row.last());
        lemma_markup_concat(
            grown(body_layout()),
            fields_events(header, row.drop_last()),
            field_events(row.len(), header[row.len() - 1], row.last()),
        );
    }
}

proof fn lemma_provenance_markup(provenance: ProvenanceView)
    ensures
        markup(grown(body_layout()), provenance_events(provenance))
            == "\n        <Source nametype=\""@ + provenance.source_name_mode.word() + "\">"@
            + escape_text(provenance.source_label) + "</Source>"@ + "\n        <Worksheet>"@
            + escape_text(provenance.worksheet_label) + "</Worksheet>"@,
        layout_at(grown(body_layout()), provenance_events(provenance)) == grown(body_layout()),
{
    let outer = grown(body_layout());
    let word = provenance.source_name_mode.word();
    lemma_word_is_plain(provenance.source_name_mode);
    let first = seq![
        start_with("Source"@, "nametype"@, word),
        text(provenance.source_label),
        end("Source"@),
    ];
    let second = seq![start("Worksheet"@), text(provenance.worksheet_label), end("Worksheet"@)];
    assert(provenance_events(provenance) =~= first + second);
    lemma_marked_leaf_markup(outer, "Source"@, "nametype"@, word, provenance.source_label);
    lemma_bare_leaf_markup(outer, "Worksheet"@, provenance.worksheet_label);
    lemma_markup_concat(outer, first, second);
    lemma_words_of_a_row();
    assert(markup(outer, provenance_events(provenance)) =~= "\n        <Source nametype=\""@
        + word + "\">"@ + escape_text(provenance.source_label) + "</Source>"@
        + "\n        <Worksheet>"@ + escape_text(provenance.worksheet_label)
        + "</Worksheet>"@);
}

/// A row reads as its shape says: every tag at its indentation, the names
/// and the contents escaped, the positions in decimal.
pub proof fn lemma_row_text_shape(
    header: Seq<Seq<char>>,
    row: Seq<Seq<char>>,
    provenance: ProvenanceView,
)
    ensures
        row_text(header, row, provenance) == row_shape(header, row, provenance),
{
    let outer = grown(body_layout());
    let open = seq![start("Row"@)];
    let fields = fields_events(header, row);
    let tail = provenance_events(provenance);
    let close = seq![end("Row"@)];
    lemma_markup_single(body_layout(), start("Row"@));
    assert(layout_after(body_layout(), start("Row"@)) == outer);
    lemma_fields_markup(header, row);
    lemma_provenance_markup(provenance);
    lemma_markup_single(outer, end("Row"@));
    lemma_markup_concat(body_layout(), open, fields);
    lemma_markup_concat(body_layout(), open + fields, tail);
    lemma_markup_concat(body_layout(), open + fields + tail, close);
    assert(attributes_text(Seq::empty()) =~= Seq::<char>::empty());
    assert(markup(body_layout(), open) =~= line_head(4, "Row"@) + ">"@);
    assert(markup(outer, close) =~= close_line(4, "Row"@));
    lemma_words_of_a_row();
    assert(row_text(header, row, provenance) =~= row_shape(header, row, provenance));
}

proof fn lemma_rows_text_shape(
    header: Seq<Seq<char>>,
    rows: Seq<Seq<Seq<char>>>,
    provenance: ProvenanceView,
)
    ensures
        markup(body_layout(), rows_events(header, rows, provenance)) == rows_shape(
            header,
            rows,
            provenance,
        ),
    decreases rows.len(),
{
    if rows.len() == 0 {
        assert(markup(body_layout(), rows_events(header, rows, provenance)) =~= Seq::<
            char,
        >::empty());
    } else {
        lemma_rows_text_shape(header, rows.drop_last(), provenance);
        lemma_rows_text(header, rows, provenance);
        lemma_row_text_shape(header, rows.last(), provenance);
    }
}

/// Every document reads as its shape says: the declaration on the first
/// line, the opened root on the second, the rows as their shapes say, and
/// the closed root on a last line without a line feed after it.
pub proof fn lemma_document_shape(lines: Seq<Seq<char>>, config: ConfigView)
    requires
        document(lines, config) is Ok,
    ensures
        ({
            let recs = records(lines, config.delimiter);
            let rows = written_rows(recs[0], data_rows(recs), config.ragged);
            document(lines, config) == Ok::<Seq<char>, TranscodeError>(
                "<?xml version=\"1.0\" encoding=\"UTF-8\"?>\n<Document>"@ + rows_shape(
                    recs[0],
                    rows,
                    config.provenance,
                ) + "\n</Document>"@,
            )
        }),
{
    let recs = records(lines, config.delimiter);
    let rows = written_rows(recs[0], data_rows(recs), config.ragged);
    lemma_document_is_table(lines, config);
    lemma_document_text(recs[0], rows, config.provenance);
    lemma_rows_text_shape(recs[0], rows, config.provenance);
    lemma_empty_document_text();
}

} // verus!
