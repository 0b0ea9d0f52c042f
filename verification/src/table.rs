//! The input as a table, and what holds of its document.

use crate::event::{
    count_opened, document_events, end, epilog_events, field_events, fields_events,
    lemma_document_rows_counted, lemma_row_shape, prolog_events, provenance_events, row_events,
    rows_events, start, XmlEventView,
};
use crate::markup::{
    attributes_text, event_text, layout_after, layout_at, lemma_markup_concat,
    lemma_markup_single, markup, padding, Layout,
};
use crate::options::{ConfigView, ProvenanceView, RaggedPolicy};
use crate::text::{
    all_space, chomp, chomped, fields_of, is_blank, is_space, lemma_blank_is_all_space,
    lemma_lines_at_line_feed, lemma_split_last, lemma_split_pieces, lines_of, split, trim,
};
use crate::transcoder::{
    admitted, body_layout, clip, document, epilog_text, initial, prolog_text, row_text,
    run_lines, start_layout, step, Progress, TranscodeError,
};
use vstd::prelude::*;

verus! {

/// Whether every line of `lines` is blank.
pub open spec fn all_blank(lines: Seq<Seq<char>>) -> bool {
    forall|i: int| 0 <= i < lines.len() ==> is_blank(#[trigger] lines[i])
}

/// The header is taken once: a conversion that has its header keeps it
/// through every line, and every line that adds text counts as one row.
pub proof fn lemma_header_stays(p: Progress, line: Seq<char>, config: ConfigView)
    requires
        p.header is Some,
    ensures
        step(p, line, config) matches Ok((q, text)) ==> {
            &&& q.header == p.header
            &&& q.rows == p.rows || (q.rows == p.rows + 1 && !is_blank(line))
            &&& is_blank(line) ==> q == p && text == Seq::<char>::empty()
        },
{
}

/// A run of lines is taken part by part: the second part starts where the
/// first part ends and adds its text to that of the first; a failure in the
/// first part is the failure of the whole.
pub proof fn lemma_run_in_parts(
    p: Progress,
    first: Seq<Seq<char>>,
    second: Seq<Seq<char>>,
    config: ConfigView,
)
    ensures
        run_lines(p, first + second, config) == match run_lines(p, first, config) {
            Ok((q, text)) => match run_lines(q, second, config) {
                Ok((r, more)) => Ok((r, text + more)),
                Err(e) => Err(e),
            },
            Err(e) => Err(e),
        },
    decreases second.len(),
{
    if second.len() == 0 {
        assert(first + second =~= first);
        match run_lines(p, first, config) {
            Ok((q, text)) => {
                assert(text + Seq::<char>::empty() =~= text);
            },
            Err(e) => {},
        }
    } else {
        lemma_run_in_parts(p, first, second.drop_last(), config);
        assert((first + second).drop_last() =~= first + second.drop_last());
        assert((first + second).last() == second.last());
        match run_lines(p, first, config) {
            Ok((q, text)) => {
                match run_lines(q, second.drop_last(), config) {
                    Ok((r, more)) => {
                        match step(r, second.last(), config) {
                            Ok((t, last)) => {
                                assert(text + more + last =~= text + (more + last));
                            },
                            Err(e) => {},
                        }
                    },
                    Err(e) => {},
                }
            },
            Err(e) => {},
        }
    }
}

/// Blank lines leave a conversion where it was and add nothing.
pub proof fn lemma_blank_lines_do_nothing(p: Progress, lines: Seq<Seq<char>>, config: ConfigView)
    requires
        all_blank(lines),
    ensures
        run_lines(p, lines, config) == Ok::<(Progress, Seq<char>), TranscodeError>(
            (p, Seq::empty()),
        ),
    decreases lines.len(),
{
    if lines.len() > 0 {
        let before = lines.drop_last();
        assert forall|i: int| 0 <= i < before.len() implies is_blank(#[trigger] before[i]) by {
            assert(before[i] == lines[i]);
        }
        lemma_blank_lines_do_nothing(p, before, config);
        assert(is_blank(lines[lines.len() - 1]));
        assert(Seq::<char>::empty() + Seq::<char>::empty() =~= Seq::<char>::empty());
    }
}

/// Blank lines put in anywhere, before the header, between two rows or after
/// the last row, change neither the document nor the failure.
pub proof fn lemma_blank_lines_inserted(
    before: Seq<Seq<char>>,
    blanks: Seq<Seq<char>>,
    after: Seq<Seq<char>>,
    config: ConfigView,
)
    requires
        all_blank(blanks),
    ensures
        document(before + blanks + after, config) == document(before + after, config),
{
    lemma_run_in_parts(initial(), before + blanks, after, config);
    lemma_run_in_parts(initial(), before, blanks, config);
    lemma_run_in_parts(initial(), before, after, config);
    match run_lines(initial(), before, config) {
        Ok((q, text)) => {
            lemma_blank_lines_do_nothing(q, blanks, config);
            assert(text + Seq::<char>::empty() =~= text);
        },
        Err(e) => {},
    }
}

/// One blank line put in at the place `i` changes nothing, and so neither
/// does taking it out again.
pub proof fn lemma_blank_line_inserted(
    lines: Seq<Seq<char>>,
    i: int,
    blank: Seq<char>,
    config: ConfigView,
)
    requires
        0 <= i <= lines.len(),
        is_blank(blank),
    ensures
        document(lines.insert(i, blank), config) == document(lines, config),
{
    let before = lines.take(i);
    let after = lines.skip(i);
    assert(lines.insert(i, blank) =~= before + seq![blank] + after);
    assert(lines =~= before + after);
    lemma_blank_lines_inserted(before, seq![blank], after, config);
}

/// A blank line taken out of the place `i` changes nothing.
pub proof fn lemma_blank_line_removed(lines: Seq<Seq<char>>, i: int, config: ConfigView)
    requires
        0 <= i < lines.len(),
        is_blank(lines[i]),
    ensures
        document(lines.remove(i), config) == document(lines, config),
{
    assert(lines.remove(i).insert(i, lines[i]) =~= lines);
    lemma_blank_line_inserted(lines.remove(i), i, lines[i], config);
}

proof fn lemma_space_lines_are_blank(gap: Seq<char>)
    requires
        all_space(gap),
    ensures
        all_blank(chomped(split(gap, '\n'))),
        all_blank(lines_of(gap)),
{
    lemma_split_pieces(gap, '\n');
    let pieces = split(gap, '\n');
    assert forall|i: int| 0 <= i < pieces.len() implies all_space(#[trigger] pieces[i])
        && all_space(chomp(pieces[i])) by {
        assert forall|j: int| 0 <= j < pieces[i].len() implies is_space(
            #[trigger] pieces[i][j],
        ) by {
            let c = pieces[i][j];
            assert(gap.contains(c));
            let k = choose|k: int| 0 <= k < gap.len() && gap[k] == c;
            assert(is_space(gap[k]));
        }
        assert forall|j: int| 0 <= j < chomp(pieces[i]).len() implies is_space(
            #[trigger] chomp(pieces[i])[j],
        ) by {
            assert(chomp(pieces[i])[j] == pieces[i][j]);
        }
    }
    let ended = chomped(pieces);
    assert forall|i: int| 0 <= i < ended.len() implies is_blank(#[trigger] ended[i]) by {
        assert(all_space(chomp(pieces[i])));
        lemma_blank_is_all_space(ended[i]);
    }
    let lines = lines_of(gap);
    assert forall|i: int| 0 <= i < lines.len() implies is_blank(#[trigger] lines[i]) by {
        if i < pieces.len() - 1 {
            assert(lines[i] == chomp(pieces[i]));
            assert(all_space(chomp(pieces[i])));
        } else {
            assert(lines[i] == pieces[i]);
            assert(all_space(pieces[i]));
        }
        lemma_blank_is_all_space(lines[i]);
    }
}

/// White space that fills whole lines of the input changes neither the
/// document nor the failure, wherever the lines stand: between two lines,
/// before the first line, or after the last, where the last line does not
/// end in a carriage return that the added line feed would make part of its
/// terminator.
pub proof fn lemma_blank_text_inserted(
    before: Seq<char>,
    gap: Seq<char>,
    after: Seq<char>,
    config: ConfigView,
)
    requires
        all_space(gap),
    ensures
        document(lines_of(before + seq!['\n'] + gap + seq!['\n'] + after), config) == document(
            lines_of(before + seq!['\n'] + after),
            config,
        ),
        document(lines_of(gap + seq!['\n'] + after), config) == document(lines_of(after), config),
        before.len() == 0 || before.last() != '\r' ==> document(
            lines_of(before + seq!['\n'] + gap),
            config,
        ) == document(lines_of(before), config),
{
    let nl = seq!['\n'];
    lemma_space_lines_are_blank(gap);
    let x = chomped(split(before, '\n'));
    let g = chomped(split(gap, '\n'));
    let y = lines_of(after);
    lemma_lines_at_line_feed(before, gap + nl + after);
    lemma_lines_at_line_feed(gap, after);
    assert(before + nl + gap + nl + after =~= before + nl + (gap + nl + after));
    assert(x + (g + y) =~= x + g + y);
    lemma_lines_at_line_feed(before, after);
    lemma_blank_lines_inserted(x, g, y, config);
    lemma_blank_lines_inserted(Seq::empty(), g, y, config);
    assert(Seq::<Seq<char>>::empty() + g + y =~= g + y);
    assert(Seq::<Seq<char>>::empty() + y =~= y);
    if before.len() == 0 || before.last() != '\r' {
        let pieces = split(before, '\n');
        let last = pieces.last();
        let ended = chomped(pieces.drop_last());
        let tail = lines_of(gap);
        lemma_split_pieces(before, '\n');
        lemma_split_last(before, '\n');
        lemma_lines_at_line_feed(before, gap);
        if last.len() > 0 {
            assert(last.last() == before.last());
        }
        assert(chomp(last) == last);
        assert(x =~= ended.push(last));
        if last.len() == 0 {
            let blanks = seq![last] + tail;
            assert(trim(last) =~= last);
            assert(is_blank(last));
            assert forall|i: int| 0 <= i < blanks.len() implies is_blank(
                #[trigger] blanks[i],
            ) by {
                if i > 0 {
                    assert(blanks[i] == tail[i - 1]);
                }
            }
            lemma_blank_lines_inserted(ended, blanks, Seq::empty(), config);
            assert(ended + blanks + Seq::<Seq<char>>::empty() =~= x + tail);
            assert(ended + Seq::<Seq<char>>::empty() =~= ended);
        } else {
            lemma_blank_lines_inserted(x, tail, Seq::empty(), config);
            assert(x + tail + Seq::<Seq<char>>::empty() =~= x + tail);
            assert(x + Seq::<Seq<char>>::empty() =~= x);
        }
    }
}

/// An input without a line that has content gives the document with the
/// empty root: the prolog and at once the epilog.
pub proof fn lemma_blank_input(lines: Seq<Seq<char>>, config: ConfigView)
    requires
        all_blank(lines),
    ensures
        document(lines, config) == Ok::<Seq<char>, TranscodeError>(prolog_text() + epilog_text()),
{
    lemma_blank_lines_do_nothing(initial(), lines, config);
    assert(prolog_text() + Seq::<char>::empty() + epilog_text() =~= prolog_text()
        + epilog_text());
}

/// The document with the empty root, letter by letter.
pub proof fn lemma_empty_document_text()
    ensures
        prolog_text() == "<?xml version=\"1.0\" encoding=\"UTF-8\"?>\n<Document>"@,
        epilog_text() == "\n</Document>"@,
        prolog_text() + epilog_text()
            == "<?xml version=\"1.0\" encoding=\"UTF-8\"?>\n<Document>\n</Document>"@,
{
    reveal_strlit("<?");
    reveal_strlit("xml version=\"");
    reveal_strlit("1.0");
    reveal_strlit("\" encoding=\"");
    reveal_strlit("UTF-8");
    reveal_strlit("\"");
    reveal_strlit("?>");
    reveal_strlit("\n");
    reveal_strlit("<");
    reveal_strlit("Document");
    reveal_strlit(">");
    reveal_strlit("</");
    reveal_strlit("<?xml version=\"1.0\" encoding=\"UTF-8\"?>\n<Document>");
    reveal_strlit("\n</Document>");
    reveal_strlit("\n<Document>");
    reveal_strlit("<?xml version=\"1.0\" encoding=\"UTF-8\"?>");
    reveal_strlit("<?xml version=\"1.0\" encoding=\"UTF-8\"?>\n<Document>\n</Document>");
    let declaration = XmlEventView::Declaration { version: "1.0"@, encoding: "UTF-8"@ };
    let root = start("Document"@);
    let after_declaration = layout_after(start_layout(), declaration);
    lemma_markup_single(start_layout(), declaration);
    lemma_markup_single(after_declaration, root);
    lemma_markup_concat(start_layout(), seq![declaration], seq![root]);
    assert(prolog_events() =~= seq![declaration] + seq![root]);
    assert(padding(' ', 0) =~= Seq::<char>::empty());
    assert(attributes_text(Seq::empty()) =~= Seq::<char>::empty());
    assert(event_text(start_layout(), declaration)
        =~= "<?xml version=\"1.0\" encoding=\"UTF-8\"?>"@);
    assert(event_text(after_declaration, root) =~= "\n<Document>"@);
    assert(prolog_text() =~= "<?xml version=\"1.0\" encoding=\"UTF-8\"?>\n<Document>"@);
    lemma_markup_single(body_layout(), end("Document"@));
    assert(epilog_events() =~= seq![end("Document"@)]);
    assert(event_text(body_layout(), end("Document"@)) =~= "\n</Document>"@);
    assert(prolog_text() + epilog_text()
        =~= "<?xml version=\"1.0\" encoding=\"UTF-8\"?>\n<Document>\n</Document>"@);
}

/// The records of an input: the fields of each line that has content, in
/// the order of the lines. The first record is the header, the others are
/// the data rows.
pub open spec fn records(lines: Seq<Seq<char>>, delimiter: char) -> Seq<Seq<Seq<char>>>
    decreases lines.len(),
{
    if lines.len() == 0 {
        Seq::empty()
    } else if is_blank(lines.last()) {
        records(lines.drop_last(), delimiter)
    } else {
        records(lines.drop_last(), delimiter).push(fields_of(lines.last(), delimiter))
    }
}

/// The data rows of a table.
pub open spec fn data_rows(records: Seq<Seq<Seq<char>>>) -> Seq<Seq<Seq<char>>> {
    if records.len() == 0 {
        Seq::empty()
    } else {
        records.skip(1)
    }
}

/// The place, counted from zero, of the first data row that is not admitted.
pub open spec fn first_rejected(
    header: Seq<Seq<char>>,
    rows: Seq<Seq<Seq<char>>>,
    policy: RaggedPolicy,
) -> Option<nat>
    decreases rows.len(),
{
    if rows.len() == 0 {
        None
    } else {
        match first_rejected(header, rows.drop_last(), policy) {
            Some(k) => Some(k),
            None => if admitted(header, rows.last(), policy) is None {
                Some((rows.len() - 1) as nat)
            } else {
                None
            },
        }
    }
}

/// The data rows as they are written: each cut to its admitted fields.
pub open spec fn written_rows(
    header: Seq<Seq<char>>,
    rows: Seq<Seq<Seq<char>>>,
    policy: RaggedPolicy,
) -> Seq<Seq<Seq<char>>> {
    Seq::new(rows.len(), |i: int| admitted(header, rows[i], policy).unwrap())
}

/// The document of a table: the text of its events from the declaration to
/// the closed root, or the failure at the first data row that is not
/// admitted.
pub open spec fn table_document(records: Seq<Seq<Seq<char>>>, config: ConfigView) -> Result<
    Seq<char>,
    TranscodeError,
> {
    let header = records[0];
    let rows = data_rows(records);
    match first_rejected(header, rows, config.ragged) {
        Some(k) => Err(
            TranscodeError::Structure { row: clip(k + 1), position: clip(header.len() + 1) },
        ),
        None => Ok(
            markup(
                start_layout(),
                document_events(
                    header,
                    written_rows(header, rows, config.ragged),
                    config.provenance,
                ),
            ),
        ),
    }
}

proof fn lemma_layout_push(layout: Layout, events: Seq<XmlEventView>, event: XmlEventView)
    ensures
        layout_at(layout, events.push(event)) == layout_after(layout_at(layout, events), event),
{
    assert(events.push(event).drop_last() =~= events);
}

pub(crate) proof fn lemma_field_balanced(
    layout: Layout,
    position: nat,
    name: Seq<char>,
    content: Seq<char>,
)
    requires
        layout.pending_break,
    ensures
        layout_at(layout, field_events(position, name, content)) == layout,
{
    let e = field_events(position, name, content);
    let s0 = Seq::<XmlEventView>::empty();
    let s1 = s0.push(e[0]);
    let s2 = s1.push(e[1]);
    let s3 = s2.push(e[2]);
    let s4 = s3.push(e[3]);
    let s5 = s4.push(e[4]);
    let s6 = s5.push(e[5]);
    let s7 = s6.push(e[6]);
    let s8 = s7.push(e[7]);
    assert(s8 =~= e);
    lemma_layout_push(layout, s0, e[0]);
    lemma_layout_push(layout, s1, e[1]);
    lemma_layout_push(layout, s2, e[2]);
    lemma_layout_push(layout, s3, e[3]);
    lemma_layout_push(layout, s4, e[4]);
    lemma_layout_push(layout, s5, e[5]);
    lemma_layout_push(layout, s6, e[6]);
    lemma_layout_push(layout, s7, e[7]);
}

proof fn lemma_fields_balanced(layout: Layout, header: Seq<Seq<char>>, row: Seq<Seq<char>>)
    requires
        layout.pending_break,
    ensures
        layout_at(layout, fields_events(header, row)) == layout,
    decreases row.len(),
{
    if row.len() > 0 {
        lemma_fields_balanced(layout, header, row.drop_last());
        lemma_field_balanced(layout, row.len(), header[row.len() - 1], row.last());
        lemma_markup_concat(
            layout,
            fields_events(header, row.drop_last()),
            field_events(row.len(), header[row.len() - 1], row.last()),
        );
    }
}

pub(crate) proof fn lemma_provenance_balanced(layout: Layout, provenance: ProvenanceView)
    requires
        layout.pending_break,
    ensures
        layout_at(layout, provenance_events(provenance)) == layout,
{
    let e = provenance_events(provenance);
    let s0 = Seq::<XmlEventView>::empty();
    let s1 = s0.push(e[0]);
    let s2 = s1.push(e[1]);
    let s3 = s2.push(e[2]);
    let s4 = s3.push(e[3]);
    let s5 = s4.push(e[4]);
    let s6 = s5.push(e[5]);
    assert(s6 =~= e);
    lemma_layout_push(layout, s0, e[0]);
    lemma_layout_push(layout, s1, e[1]);
    lemma_layout_push(layout, s2, e[2]);
    lemma_layout_push(layout, s3, e[3]);
    lemma_layout_push(layout, s4, e[4]);
    lemma_layout_push(layout, s5, e[5]);
}

/// A row leaves the writer where it met it.
pub proof fn lemma_row_balanced(
    layout: Layout,
    header: Seq<Seq<char>>,
    row: Seq<Seq<char>>,
    provenance: ProvenanceView,
)
    requires
        layout.pending_break,
    ensures
        layout_at(layout, row_events(header, row, provenance)) == layout,
{
    let open = seq![start("Row"@)];
    let fields = fields_events(header, row);
    let tail = provenance_events(provenance);
    let close = seq![end("Row"@)];
    lemma_markup_single(layout, start("Row"@));
    let inner = layout_after(layout, start("Row"@));
    lemma_fields_balanced(inner, header, row);
    lemma_provenance_balanced(inner, provenance);
    lemma_markup_single(inner, end("Row"@));
    lemma_markup_concat(layout, open, fields);
    lemma_markup_concat(layout, open + fields, tail);
    lemma_markup_concat(layout, open + fields + tail, close);
}

/// The rows leave the writer where it stands between rows, and their text
/// is the text of one row after the other.
pub proof fn lemma_rows_text(
    header: Seq<Seq<char>>,
    rows: Seq<Seq<Seq<char>>>,
    provenance: ProvenanceView,
)
    ensures
        layout_at(body_layout(), rows_events(header, rows, provenance)) == body_layout(),
        rows.len() > 0 ==> markup(body_layout(), rows_events(header, rows, provenance)) == markup(
            body_layout(),
            rows_events(header, rows.drop_last(), provenance),
        ) + row_text(header, rows.last(), provenance),
    decreases rows.len(),
{
    if rows.len() > 0 {
        lemma_rows_text(header, rows.drop_last(), provenance);
        lemma_row_balanced(body_layout(), header, rows.last(), provenance);
        lemma_markup_concat(
            body_layout(),
            rows_events(header, rows.drop_last(), provenance),
            row_events(header, rows.last(), provenance),
        );
    }
}

/// The text of a whole document is the prolog, the text of the rows and the
/// epilog.
pub proof fn lemma_document_text(
    header: Seq<Seq<char>>,
    rows: Seq<Seq<Seq<char>>>,
    provenance: ProvenanceView,
)
    ensures
        markup(start_layout(), document_events(header, rows, provenance)) == prolog_text() + markup(
            body_layout(),
            rows_events(header, rows, provenance),
        ) + epilog_text(),
{
    let declaration = prolog_events()[0];
    let root = prolog_events()[1];
    lemma_markup_single(start_layout(), declaration);
    lemma_markup_single(layout_after(start_layout(), declaration), root);
    lemma_markup_concat(start_layout(), seq![declaration], seq![root]);
    assert(prolog_events() =~= seq![declaration] + seq![root]);
    assert(layout_at(start_layout(), prolog_events()) == body_layout());
    lemma_rows_text(header, rows, provenance);
    lemma_markup_concat(start_layout(), prolog_events(), rows_events(header, rows, provenance));
    lemma_markup_concat(
        start_layout(),
        prolog_events() + rows_events(header, rows, provenance),
        epilog_events(),
    );
}

proof fn lemma_progress_of_table(lines: Seq<Seq<char>>, config: ConfigView)
    ensures
        ({
            let recs = records(lines, config.delimiter);
            let header = recs[0];
            let rows = data_rows(recs);
            match run_lines(initial(), lines, config) {
                Ok((p, text)) => {
                    &&& first_rejected(header, rows, config.ragged) is None
                    &&& recs.len() == 0 ==> p == initial()
                    &&& recs.len() > 0 ==> p.header == Some(header)
                    &&& p.rows == rows.len()
                    &&& text == markup(
                        body_layout(),
                        rows_events(
                            header,
                            written_rows(header, rows, config.ragged),
                            config.provenance,
                        ),
                    )
                },
                Err(e) => {
                    &&& recs.len() > 0
                    &&& first_rejected(header, rows, config.ragged) matches Some(k)
                    &&& e == (TranscodeError::Structure {
                        row: clip(k + 1),
                        position: clip(header.len() + 1),
                    })
                },
            }
        }),
    decreases lines.len(),
{
    let d = config.delimiter;
    let policy = config.ragged;
    let prov = config.provenance;
    if lines.len() == 0 {
        assert(markup(body_layout(), rows_events(records(lines, d)[0], Seq::empty(), prov))
            =~= Seq::<char>::empty());
        assert(written_rows(records(lines, d)[0], Seq::empty(), policy) =~= Seq::empty());
    } else {
        let before = lines.drop_last();
        let last = lines.last();
        lemma_progress_of_table(before, config);
        let recs_b = records(before, d);
        let recs = records(lines, d);
        match run_lines(initial(), before, config) {
            Ok((q, text)) => {
                assert(text + Seq::<char>::empty() =~= text);
            },
            Err(e) => {},
        }
        if !is_blank(last) {
            let f = fields_of(last, d);
            assert(recs == recs_b.push(f));
            if recs_b.len() == 0 {
                assert(data_rows(recs) =~= Seq::empty());
                assert(written_rows(f, Seq::empty(), policy) =~= Seq::empty());
                assert(markup(body_layout(), rows_events(f, Seq::empty(), prov)) =~= Seq::<
                    char,
                >::empty());
            } else {
                let header = recs_b[0];
                assert(recs[0] == header);
                let rows_b = data_rows(recs_b);
                let rows = data_rows(recs);
                assert(rows =~= rows_b.push(f));
                assert(rows.drop_last() =~= rows_b);
                match run_lines(initial(), before, config) {
                    Ok((q, text)) => {
                        match admitted(header, f, policy) {
                            Some(row) => {
                                let done = written_rows(header, rows_b, policy);
                                let all = written_rows(header, rows, policy);
                                assert(all =~= done.push(row));
                                assert(all.drop_last() =~= done);
                                lemma_rows_text(header, all, prov);
                            },
                            None => {},
                        }
                    },
                    Err(e) => {},
                }
            }
        }
    }
}

/// The document of an input is the document of its table: the events of
/// the header and the data rows, written out from the declaration to the
/// closed root; and a conversion fails at the first data row that is not
/// admitted, with the number of that row and the first position without a
/// name.
pub proof fn lemma_document_is_table(lines: Seq<Seq<char>>, config: ConfigView)
    ensures
        document(lines, config) == table_document(records(lines, config.delimiter), config),
{
    lemma_progress_of_table(lines, config);
    let recs = records(lines, config.delimiter);
    let header = recs[0];
    let rows = data_rows(recs);
    lemma_document_text(header, written_rows(header, rows, config.ragged), config.provenance);
}

/// A table with a header and `k` data rows that are all admitted gives a
/// document that opens exactly `k` `Row`s. The row at the place `j` opens as
/// many `Field`s as it has fields written, and its field at the place `i`
/// stands at its place among them, marked with the position `i + 1`, with
/// the header's name for that place and the row's content.
pub proof fn lemma_table_shape(lines: Seq<Seq<char>>, config: ConfigView)
    requires
        document(lines, config) is Ok,
    ensures
        ({
            let recs = records(lines, config.delimiter);
            let header = recs[0];
            let rows = written_rows(header, data_rows(recs), config.ragged);
            let events = document_events(header, rows, config.provenance);
            &&& document(lines, config) == Ok::<Seq<char>, TranscodeError>(
                markup(start_layout(), events),
            )
            &&& count_opened(events, "Row"@) == data_rows(recs).len()
            &&& forall|j: int|
                0 <= j < rows.len() ==> count_opened(
                    #[trigger] row_events(header, rows[j], config.provenance),
                    "Field"@,
                ) == rows[j].len()
            &&& forall|j: int, i: int|
                0 <= j < rows.len() && 0 <= i < rows[j].len() ==> #[trigger] row_events(
                    header,
                    rows[j],
                    config.provenance,
                ).subrange(1 + 8 * i, 9 + 8 * i) == field_events(
                    (i + 1) as nat,
                    header[i],
                    rows[j][i],
                )
        }),
{
    let recs = records(lines, config.delimiter);
    let header = recs[0];
    let rows = written_rows(header, data_rows(recs), config.ragged);
    lemma_document_is_table(lines, config);
    lemma_document_rows_counted(header, rows, config.provenance);
    assert forall|j: int| 0 <= j < rows.len() implies count_opened(
        #[trigger] row_events(header, rows[j], config.provenance),
        "Field"@,
    ) == rows[j].len() by {
        lemma_row_shape(header, rows[j], config.provenance);
    }
    assert forall|j: int, i: int|
        0 <= j < rows.len() && 0 <= i < rows[j].len() implies #[trigger] row_events(
        header,
        rows[j],
        config.provenance,
    ).subrange(1 + 8 * i, 9 + 8 * i) == field_events((i + 1) as nat, header[i], rows[j][i]) by {
        lemma_row_shape(header, rows[j], config.provenance);
    }
}

/// Under `Reject` the rows are written as they are: a row of `n` fields
/// opens `n` `Field`s.
pub proof fn lemma_rows_written_whole(lines: Seq<Seq<char>>, config: ConfigView)
    requires
        document(lines, config) is Ok,
        config.ragged == RaggedPolicy::Reject,
    ensures
        ({
            let recs = records(lines, config.delimiter);
            written_rows(recs[0], data_rows(recs), config.ragged) == data_rows(recs)
        }),
{
    let recs = records(lines, config.delimiter);
    let header = recs[0];
    let rows = data_rows(recs);
    lemma_document_is_table(lines, config);
    lemma_none_rejected(header, rows, config.ragged);
    assert(written_rows(header, rows, config.ragged) =~= rows);
}

proof fn lemma_none_rejected(
    header: Seq<Seq<char>>,
    rows: Seq<Seq<Seq<char>>>,
    policy: RaggedPolicy,
)
    requires
        first_rejected(header, rows, policy) is None,
    ensures
        forall|j: int| 0 <= j < rows.len() ==> admitted(header, #[trigger] rows[j], policy) is Some,
    decreases rows.len(),
{
    if rows.len() > 0 {
        lemma_none_rejected(header, rows.drop_last(), policy);
        assert forall|j: int| 0 <= j < rows.len() implies admitted(
            header,
            #[trigger] rows[j],
            policy,
        ) is Some by {
            if j < rows.len() - 1 {
                assert(rows.drop_last()[j] == rows[j]);
            }
        }
    }
}

proof fn lemma_all_admitted(
    header: Seq<Seq<char>>,
    rows: Seq<Seq<Seq<char>>>,
    policy: RaggedPolicy,
)
    requires
        forall|j: int| 0 <= j < rows.len() ==> (#[trigger] rows[j]).len() <= header.len(),
    ensures
        first_rejected(header, rows, policy) is None,
        written_rows(header, rows, policy) == rows,
    decreases rows.len(),
{
    if rows.len() > 0 {
        let before = rows.drop_last();
        assert forall|j: int| 0 <= j < before.len() implies (#[trigger] before[j]).len()
            <= header.len() by {
            assert(before[j] == rows[j]);
        }
        lemma_all_admitted(header, before, policy);
        assert(rows[rows.len() - 1].len() <= header.len());
    }
    assert(written_rows(header, rows, policy) =~= rows);
}

/// A table whose header has `n` names and whose `k` data rows have `n`
/// fields each gives a document, whatever the policy: it opens exactly `k`
/// `Row`s, and each row opens exactly `n` `Field`s, which carry the positions
/// from one to `n` in their order, each with the header's name and the row's
/// content for its place.
pub proof fn lemma_full_table_shape(lines: Seq<Seq<char>>, config: ConfigView)
    requires
        records(lines, config.delimiter).len() > 0,
        forall|j: int|
            0 <= j < records(lines, config.delimiter).len() ==> (#[trigger] records(
                lines,
                config.delimiter,
            )[j]).len() == records(lines, config.delimiter)[0].len(),
    ensures
        ({
            let recs = records(lines, config.delimiter);
            let header = recs[0];
            let rows = data_rows(recs);
            let events = document_events(header, rows, config.provenance);
            &&& document(lines, config) == Ok::<Seq<char>, TranscodeError>(
                markup(start_layout(), events),
            )
            &&& count_opened(events, "Row"@) == rows.len()
            &&& forall|j: int|
                0 <= j < rows.len() ==> count_opened(
                    #[trigger] row_events(header, rows[j], config.provenance),
                    "Field"@,
                ) == header.len()
            &&& forall|j: int, i: int|
                0 <= j < rows.len() && 0 <= i < header.len() ==> #[trigger] row_events(
                    header,
                    rows[j],
                    config.provenance,
                ).subrange(1 + 8 * i, 9 + 8 * i) == field_events(
                    (i + 1) as nat,
                    header[i],
                    rows[j][i],
                )
        }),
{
    let recs = records(lines, config.delimiter);
    let header = recs[0];
    let rows = data_rows(recs);
    assert forall|j: int| 0 <= j < rows.len() implies (#[trigger] rows[j]).len()
        == header.len() by {
        assert(rows[j] == recs[j + 1]);
    }
    lemma_all_admitted(header, rows, config.ragged);
    lemma_document_is_table(lines, config);
    lemma_table_shape(lines, config);
}

} // verus!
