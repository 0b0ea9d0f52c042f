//! The conversion itself: a machine that takes the input line by line and
//! hands out the document piece by piece.

use crate::event::{
    end, epilog_events, field_events, fields_events, prolog_events, provenance_events,
    push_field, push_provenance, row_events, start, views, XmlEvent, XmlEventView,
};
use crate::markup::{
    grown, layout_at, lemma_encode_concat, lemma_markup_concat, lemma_markup_single, markup,
    Layout,
};
use crate::options::{
    default_config, Config, ConfigView, Provenance, ProvenanceView, RaggedPolicy,
};
use crate::sink::{drain, emit_all, emit_next, layout_of, new_writer, written};
use crate::table::{lemma_field_balanced, lemma_row_balanced};
use crate::text::{
    decimal, decimal_string, fields_of, is_blank, lines_in, lines_of, parse_line, texts,
};
use quick_xml::Writer;
use vstd::prelude::*;
use vstd::utf8::encode_utf8;

verus! {

/// The byte that lines are indented with.
pub const INDENT_PAD: u8 = 32;

/// How many padding bytes one level of nesting adds.
pub const INDENT_UNIT: usize = 4;

/// Why a conversion stopped.
#[derive(Clone, Copy, Debug, PartialEq, Eq, Structural)]
pub enum TranscodeError {
    /// The data row `row`, counted from one, has a field at `position`,
    /// counted from one, for which the header has no name.
    Structure { row: usize, position: usize },
}

impl TranscodeError {
    /// What the failure says.
    pub open spec fn message_text(self) -> Seq<char> {
        match self {
            TranscodeError::Structure { row, position } => "Row "@ + decimal(row as nat)
                + " has a field at position "@ + decimal(position as nat)
                + " for which the header has no name."@,
        }
    }

    /// The failure in words, for the one who gave the input.
    pub fn message(&self) -> (m: String)
        ensures
            m@ == self.message_text(),
    {
        match self {
            TranscodeError::Structure { row, position } => {
                let mut m = "Row ".to_owned();
                m.append(decimal_string(*row).as_str());
                m.append(" has a field at position ");
                m.append(decimal_string(*position).as_str());
                m.append(" for which the header has no name.");
                m
            },
        }
    }
}

/// What the machine waits for.
#[derive(Clone, Copy, Debug, PartialEq, Eq, Structural)]
pub enum Phase {
    /// No line with content has come yet: the next one is the header.
    AwaitingHeader,
    /// The header is known: every line with content is a data row.
    Streaming,
}

/// How far a conversion has come.
#[verifier::ext_equal]
pub struct Progress {
    /// The names of the header, once it has come.
    pub header: Option<Seq<Seq<char>>>,
    /// How many data rows have been written.
    pub rows: nat,
}

/// `n` as a machine number, held at the largest where it is beyond.
pub open spec fn clip(n: nat) -> usize {
    if n <= usize::MAX {
        n as usize
    } else {
        usize::MAX
    }
}

/// Where the writer stands before the first event.
pub open spec fn start_layout() -> Layout {
    Layout { width: 0, unit: INDENT_UNIT as nat, pad: ' ', pending_break: false }
}

/// Where the writer stands between two rows: one level in, a break pending.
pub open spec fn body_layout() -> Layout {
    Layout { width: INDENT_UNIT as nat, unit: INDENT_UNIT as nat, pad: ' ', pending_break: true }
}

/// The text before the first row.
pub open spec fn prolog_text() -> Seq<char> {
    markup(start_layout(), prolog_events())
}

/// The text of one data row.
pub open spec fn row_text(
    header: Seq<Seq<char>>,
    row: Seq<Seq<char>>,
    provenance: ProvenanceView,
) -> Seq<char> {
    markup(body_layout(), row_events(header, row, provenance))
}

/// The text after the last row.
pub open spec fn epilog_text() -> Seq<char> {
    markup(body_layout(), epilog_events())
}

/// The fields of a data row that are written: all of them where the header
/// has a name for each; else none under `Reject`, and under `Truncate` those
/// that have a name.
pub open spec fn admitted(
    header: Seq<Seq<char>>,
    fields: Seq<Seq<char>>,
    policy: RaggedPolicy,
) -> Option<Seq<Seq<char>>> {
    if fields.len() <= header.len() {
        Some(fields)
    } else {
        match policy {
            RaggedPolicy::Reject => None,
            RaggedPolicy::Truncate => Some(fields.take(header.len() as int)),
        }
    }
}

/// A conversion before its first line: no header and no row.
pub open spec fn initial() -> Progress {
    Progress { header: None, rows: 0 }
}

/// What one line does to a conversion, and the text that it adds to the
/// document. A blank line does nothing. The first line with content gives
/// the header and adds nothing. Every later line with content is a data row:
/// it adds the text of the row, or the conversion fails where the row is not
/// admitted.
pub open spec fn step(p: Progress, line: Seq<char>, config: ConfigView) -> Result<
    (Progress, Seq<char>),
    TranscodeError,
> {
    if is_blank(line) {
        Ok((p, Seq::empty()))
    } else {
        let fields = fields_of(line, config.delimiter);
        match p.header {
            None => Ok((Progress { header: Some(fields), ..p }, Seq::empty())),
            Some(header) => match admitted(header, fields, config.ragged) {
                Some(row) => Ok(
                    (
                        Progress { rows: p.rows + 1, ..p },
                        row_text(header, row, config.provenance),
                    ),
                ),
                None => Err(
                    TranscodeError::Structure {
                        row: clip(p.rows + 1),
                        position: clip(header.len() + 1),
                    },
                ),
            },
        }
    }
}

/// What a run of lines does to a conversion, and the text that the lines
/// add, one after the other, up to the first failure.
pub open spec fn run_lines(p: Progress, lines: Seq<Seq<char>>, config: ConfigView) -> Result<
    (Progress, Seq<char>),
    TranscodeError,
>
    decreases lines.len(),
{
    if lines.len() == 0 {
        Ok((p, Seq::empty()))
    } else {
        match run_lines(p, lines.drop_last(), config) {
            Ok((q, text)) => match step(q, lines.last(), config) {
                Ok((r, more)) => Ok((r, text + more)),
                Err(e) => Err(e),
            },
            Err(e) => Err(e),
        }
    }
}

/// The document for `lines`: the prolog, what the lines add and the epilog;
/// or the failure at the first row that is not admitted.
pub open spec fn document(lines: Seq<Seq<char>>, config: ConfigView) -> Result<
    Seq<char>,
    TranscodeError,
> {
    match run_lines(initial(), lines, config) {
        Ok((_, text)) => Ok(prolog_text() + text + epilog_text()),
        Err(e) => Err(e),
    }
}

/// Whether `r` is the outcome `expected`, with the text as bytes.
pub open spec fn renders(
    r: Result<Vec<u8>, TranscodeError>,
    expected: Result<Seq<char>, TranscodeError>,
) -> bool {
    match expected {
        Ok(text) => r matches Ok(out) && out@ == encode_utf8(text),
        Err(e) => r == Err::<Vec<u8>, TranscodeError>(e),
    }
}

/// Once a run of lines has failed, more lines change nothing.
pub proof fn lemma_failure_persists(
    p: Progress,
    lines: Seq<Seq<char>>,
    k: int,
    config: ConfigView,
)
    requires
        0 <= k <= lines.len(),
        run_lines(p, lines.take(k), config) is Err,
    ensures
        run_lines(p, lines, config) == run_lines(p, lines.take(k), config),
    decreases lines.len() - k,
{
    if k == lines.len() {
        assert(lines.take(k) =~= lines);
    } else {
        assert(lines.drop_last().take(k) =~= lines.take(k));
        lemma_failure_persists(p, lines.drop_last(), k, config);
    }
}

/// Writes a data row made of the first `count` fields of `row`: the opening
/// tag, the fields one by one, the provenance and the closing tag.
fn emit_row(
    writer: &mut Writer<Vec<u8>>,
    header: &Vec<String>,
    row: &Vec<String>,
    count: usize,
    provenance: &Provenance,
)
    requires
        count <= row@.len(),
        count <= header@.len(),
        layout_of(*old(writer)) == body_layout(),
    ensures
        written(*final(writer)) == written(*old(writer)) + encode_utf8(
            row_text(texts(header@), texts(row@).take(count as int), provenance@),
        ),
        layout_of(*final(writer)) == body_layout(),
{
    let ghost base = written(*writer);
    let ghost origin = body_layout();
    let ghost inner = grown(body_layout());
    let ghost names = texts(header@);
    let ghost fields = texts(row@).take(count as int);
    let ghost open = seq![start("Row"@)];
    let mut events: Vec<XmlEvent> = Vec::new();
    events.push(XmlEvent::start("Row"));
    proof {
        assert(base + encode_utf8(markup(origin, Seq::empty())) =~= base);
        assert(views(events@) =~= open);
        assert(Seq::<XmlEventView>::empty() + open =~= open);
        lemma_markup_single(origin, start("Row"@));
        assert(fields.take(0) =~= Seq::<Seq<char>>::empty());
        assert(open + fields_events(names, fields.take(0)) =~= open);
    }
    emit_all(writer, &events, Ghost(base), Ghost(origin), Ghost(Seq::empty()));
    let mut i: usize = 0;
    while i < count
        invariant
            i <= count <= row@.len(),
            count <= header@.len(),
            origin == body_layout(),
            inner == grown(body_layout()),
            names == texts(header@),
            fields == texts(row@).take(count as int),
            open == seq![start("Row"@)],
            written(*writer) == base + encode_utf8(
                markup(origin, open + fields_events(names, fields.take(i as int))),
            ),
            layout_of(*writer) == layout_at(
                origin,
                open + fields_events(names, fields.take(i as int)),
            ),
            layout_of(*writer) == inner,
        decreases count - i,
    {
        let ghost done = open + fields_events(names, fields.take(i as int));
        let mut events: Vec<XmlEvent> = Vec::new();
        push_field(&mut events, i + 1, header[i].as_str(), row[i].as_str());
        let ghost field = field_events((i + 1) as nat, header@[i as int]@, row@[i as int]@);
        proof {
            assert(views(events@) =~= field);
            assert(events@.len() == views(events@).len() == 8);
        }
        emit_all(writer, &events, Ghost(base), Ghost(origin), Ghost(done));
        proof {
            let next = fields.take(i + 1);
            assert(next.drop_last() =~= fields.take(i as int));
            assert(next.last() == row@[i as int]@);
            assert(names[i as int] == header@[i as int]@);
            assert(done + field =~= open + fields_events(names, next));
            lemma_markup_concat(origin, done, field);
            lemma_field_balanced(inner, (i + 1) as nat, header@[i as int]@, row@[i as int]@);
        }
        i += 1;
    }
    assert(fields.take(count as int) =~= fields);
    let ghost done = open + fields_events(names, fields);
    let mut events: Vec<XmlEvent> = Vec::new();
    push_provenance(&mut events, provenance);
    events.push(XmlEvent::end("Row"));
    let ghost tail = provenance_events(provenance@) + seq![end("Row"@)];
    proof {
        assert(views(events@) =~= tail);
        assert(events@.len() == views(events@).len() == 7);
        assert(done + tail =~= row_events(names, fields, provenance@));
        lemma_row_balanced(origin, names, fields, provenance@);
    }
    emit_all(writer, &events, Ghost(base), Ghost(origin), Ghost(done));
}

/// The machine: a state that is fed the lines of the input one by one and
/// answers each with the bytes that the line adds to the document.
pub struct Transcoder {
    config: Config,
    header: Option<Vec<String>>,
    rows: usize,
    count: Ghost<nat>,
    writer: Writer<Vec<u8>>,
}

impl View for Transcoder {
    type V = Progress;

    closed spec fn view(&self) -> Progress {
        Progress {
            header: match self.header {
                None => None,
                Some(names) => Some(texts(names@)),
            },
            rows: self.count@,
        }
    }
}

impl Transcoder {
    /// Between two calls the writer stands where rows begin and holds
    /// nothing, and the rows are counted up to the largest machine number.
    #[verifier::type_invariant]
    spec fn inv(&self) -> bool {
        &&& layout_of(self.writer) == body_layout()
        &&& written(self.writer) == Seq::<u8>::empty()
        &&& self.rows == clip(self.count@)
    }

    /// The settings that the machine was made with.
    pub closed spec fn config(&self) -> ConfigView {
        self.config@
    }

    /// A machine before its first line, and the bytes of the prolog.
    pub fn start(config: Config) -> (r: (Transcoder, Vec<u8>))
        ensures
            r.0.config() == config@,
            r.0@ == initial(),
            r.1@ == encode_utf8(prolog_text()),
    {
        let mut writer = new_writer(INDENT_PAD, INDENT_UNIT);
        let ghost origin = start_layout();
        assert(Seq::<u8>::empty() + encode_utf8(markup(origin, Seq::empty())) =~= Seq::<
            u8,
        >::empty());
        let declaration = XmlEvent::Declaration {
            version: "1.0".to_owned(),
            encoding: "UTF-8".to_owned(),
        };
        emit_next(
            &mut writer,
            &declaration,
            Ghost(Seq::empty()),
            Ghost(origin),
            Ghost(Seq::empty()),
        );
        let root = XmlEvent::start("Document");
        emit_next(
            &mut writer,
            &root,
            Ghost(Seq::empty()),
            Ghost(origin),
            Ghost(Seq::<XmlEventView>::empty().push(declaration@)),
        );
        proof {
            assert(Seq::<XmlEventView>::empty().push(declaration@).push(root@)
                =~= prolog_events());
            assert(Seq::<u8>::empty() + encode_utf8(prolog_text()) =~= encode_utf8(
                prolog_text(),
            ));
        }
        let out = drain(&mut writer);
        (Transcoder { config, header: None, rows: 0, count: Ghost(0), writer }, out)
    }

    /// What the machine waits for.
    pub fn phase(&self) -> (p: Phase)
        ensures
            p == Phase::AwaitingHeader <==> self@.header is None,
    {
        match &self.header {
            None => Phase::AwaitingHeader,
            Some(_) => Phase::Streaming,
        }
    }

    /// Feeds the machine one line: the machine after the line and the bytes
    /// that the line adds to the document, as `step` says; or the failure,
    /// where the line is a row that is not admitted.
    pub fn feed_line(self, line: &str) -> (r: Result<(Transcoder, Vec<u8>), TranscodeError>)
        ensures
            match step(self@, line@, self.config()) {
                Ok((p, text)) => {
                    &&& r matches Ok((next, out))
                    &&& next@ == p
                    &&& next.config() == self.config()
                    &&& out@ == encode_utf8(text)
                },
                Err(e) => r matches Err(f) && f == e,
            },
    {
        proof {
            use_type_invariant(&self);
        }
        let Transcoder { config, header, rows, count, mut writer } = self;
        let fields = match parse_line(line, config.delimiter) {
            None => {
                return Ok((Transcoder { config, header, rows, count, writer }, Vec::new()));
            },
            Some(fields) => fields,
        };
        match header {
            None => Ok(
                (Transcoder { config, header: Some(fields), rows, count, writer }, Vec::new()),
            ),
            Some(names) => {
                let kept = if fields.len() <= names.len() {
                    fields.len()
                } else {
                    match config.ragged {
                        RaggedPolicy::Reject => {
                            return Err(
                                TranscodeError::Structure {
                                    row: if rows < usize::MAX {
                                        rows + 1
                                    } else {
                                        rows
                                    },
                                    position: names.len() + 1,
                                },
                            );
                        },
                        RaggedPolicy::Truncate => names.len(),
                    }
                };
                proof {
                    if fields.len() <= names.len() {
                        assert(texts(fields@).take(kept as int) =~= texts(fields@));
                    }
                }
                emit_row(&mut writer, &names, &fields, kept, &config.provenance);
                let out = drain(&mut writer);
                assert(out@ =~= encode_utf8(
                    row_text(
                        texts(names@),
                        texts(fields@).take(kept as int),
                        config@.provenance,
                    ),
                ));
                let rows = if rows < usize::MAX {
                    rows + 1
                } else {
                    rows
                };
                Ok(
                    (
                        Transcoder {
                            config,
                            header: Some(names),
                            rows,
                            count: Ghost((count@ + 1) as nat),
                            writer,
                        },
                        out,
                    ),
                )
            },
        }
    }

    /// Ends the document: the bytes of the epilog.
    pub fn finish(self) -> (out: Vec<u8>)
        ensures
            out@ == encode_utf8(epilog_text()),
    {
        proof {
            use_type_invariant(&self);
        }
        let mut writer = self.writer;
        assert(Seq::<u8>::empty() + encode_utf8(markup(body_layout(), Seq::empty())) =~= Seq::<
            u8,
        >::empty());
        let close = XmlEvent::end("Document");
        emit_next(
            &mut writer,
            &close,
            Ghost(Seq::empty()),
            Ghost(body_layout()),
            Ghost(Seq::empty()),
        );
        proof {
            assert(Seq::<XmlEventView>::empty().push(close@) =~= epilog_events());
            assert(Seq::<u8>::empty() + encode_utf8(epilog_text()) =~= encode_utf8(
                epilog_text(),
            ));
        }
        drain(&mut writer)
    }
}

/// Converts a whole input under the settings `config`: the document for its
/// lines, or the failure at the first row that is not admitted.
pub fn convert_with(input: &str, config: Config) -> (r: Result<Vec<u8>, TranscodeError>)
    ensures
        renders(r, document(lines_of(input@), config@)),
{
    let lines = lines_in(input);
    let ghost all = texts(lines@);
    let ghost settings = config@;
    let (start, mut out) = Transcoder::start(config);
    let mut machine = start;
    let ghost mut body = Seq::<char>::empty();
    let mut i: usize = 0;
    proof {
        assert(all.take(0) =~= Seq::<Seq<char>>::empty());
        assert(prolog_text() + body =~= prolog_text());
    }
    while i < lines.len()
        invariant
            i <= lines@.len(),
            all == texts(lines@),
            all == lines_of(input@),
            settings == config@,
            machine.config() == settings,
            run_lines(initial(), all.take(i as int), settings) == Ok::<
                (Progress, Seq<char>),
                TranscodeError,
            >((machine@, body)),
            out@ == encode_utf8(prolog_text() + body),
        decreases lines@.len() - i,
    {
        proof {
            let next = all.take(i + 1);
            assert(next.drop_last() =~= all.take(i as int));
            assert(next.last() == lines@[i as int]@);
        }
        match machine.feed_line(lines[i].as_str()) {
            Ok((next, mut bytes)) => {
                proof {
                    let more = step(machine@, lines@[i as int]@, settings).unwrap().1;
                    lemma_encode_concat(prolog_text() + body, more);
                    assert(prolog_text() + body + more =~= prolog_text() + (body + more));
                    body = body + more;
                }
                out.append(&mut bytes);
                machine = next;
            },
            Err(e) => {
                proof {
                    let next = all.take(i + 1);
                    assert(next.drop_last() =~= all.take(i as int));
                    assert(run_lines(initial(), next, settings) == Err::<
                        (Progress, Seq<char>),
                        TranscodeError,
                    >(e));
                    lemma_failure_persists(initial(), all, i + 1, settings);
                }
                return Err(e);
            },
        }
        i += 1;
    }
    assert(all.take(lines@.len() as int) =~= all);
    let mut end = machine.finish();
    proof {
        lemma_encode_concat(prolog_text() + body, epilog_text());
    }
    out.append(&mut end);
    Ok(out)
}

/// Converts a whole input whose fields are separated by `delimiter`, with
/// the placeholder provenance; a row with more fields than the header has
/// names is a failure.
pub fn convert(input: &str, delimiter: char) -> (r: Result<Vec<u8>, TranscodeError>)
    ensures
        renders(r, document(lines_of(input@), default_config(delimiter))),
{
    convert_with(input, Config::new(delimiter))
}

} // verus!
