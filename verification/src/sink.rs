//! The indenting writer that turns events into bytes.

use crate::event::{views, XmlEvent, XmlEventView};
use crate::markup::{event_text, layout_after, layout_at, lemma_encode_concat, markup, Layout};
use quick_xml::events::{BytesDecl, BytesEnd, BytesStart, BytesText, Event};
use quick_xml::Writer;
use vstd::prelude::*;
use vstd::utf8::encode_utf8;

verus! {

/// quick_xml's `Writer`, of which nothing is seen but what the names below
/// say of it.
#[verifier::external_type_specification]
#[verifier::external_body]
#[verifier::reject_recursive_types(W)]
pub struct ExWriter<W>(Writer<W>);

/// The bytes that the writer has put into its buffer and that have not been
/// taken out.
pub uninterp spec fn written(w: Writer<Vec<u8>>) -> Seq<u8>;

/// How many padding characters the writer indents the next line with.
pub uninterp spec fn indent_width(w: Writer<Vec<u8>>) -> nat;

/// How many padding characters the writer adds for one level of nesting.
pub uninterp spec fn indent_unit(w: Writer<Vec<u8>>) -> nat;

/// The byte that the writer pads with.
pub uninterp spec fn indent_pad(w: Writer<Vec<u8>>) -> u8;

/// Whether the writer puts the next tag on a line of its own.
pub uninterp spec fn break_pending(w: Writer<Vec<u8>>) -> bool;

/// Where the writer stands.
pub open spec fn layout_of(w: Writer<Vec<u8>>) -> Layout {
    Layout {
        width: indent_width(w),
        unit: indent_unit(w),
        pad: indent_pad(w) as char,
        pending_break: break_pending(w),
    }
}

/// quick_xml's `Writer::new_with_indent` over an empty `Vec<u8>`: nothing is
/// written yet, the indentation is zero, and no line break is pending. The
/// padding byte is ASCII, so that one padding character is one byte.
#[verifier::external_body]
pub(crate) fn new_writer(pad: u8, unit: usize) -> (w: Writer<Vec<u8>>)
    requires
        pad < 0x80,
    ensures
        written(w) == Seq::<u8>::empty(),
        indent_width(w) == 0,
        indent_unit(w) == unit,
        indent_pad(w) == pad,
        !break_pending(w),
{
    Writer::new_with_indent(Vec::new(), pad, unit)
}

/// quick_xml's `Writer::write_event`, on the event that `event` stands for,
/// which is made with `BytesDecl::new`, `BytesStart::new` and
/// `with_attributes`, `BytesText::new` or `BytesEnd::new`.
/// A declaration, an opening tag and a closing tag are preceded by a line
/// break and the indentation where a break is pending; text is written
/// escaped and leaves no break pending. An opening tag moves the indentation
/// in by one unit after it is written, a closing tag moves it out by one unit
/// before. Names and keys are written as they are, attribute values escaped.
/// The buffer is a `Vec<u8>`, to which every write succeeds. The indentation
/// is kept in a string, so that it may not grow beyond what a string holds.
#[verifier::external_body]
pub(crate) fn emit(writer: &mut Writer<Vec<u8>>, event: &XmlEvent)
    requires
        indent_pad(*old(writer)) < 0x80,
        event@ is Start ==> indent_width(*old(writer)) + indent_unit(*old(writer)) <= isize::MAX,
    ensures
        written(*final(writer)) == written(*old(writer)) + encode_utf8(
            event_text(layout_of(*old(writer)), event@),
        ),
        layout_of(*final(writer)) == layout_after(layout_of(*old(writer)), event@),
{
    let outcome = match event {
        XmlEvent::Declaration { version, encoding } => Event::Decl(
            BytesDecl::new(version, Some(encoding), None),
        ),
        XmlEvent::Start { name, attributes } => Event::Start(
            BytesStart::new(name.as_str()).with_attributes(
                attributes.iter().map(|a| (a.key.as_str(), a.value.as_str())),
            ),
        ),
        XmlEvent::Text { content } => Event::Text(BytesText::new(content)),
        XmlEvent::End { name } => Event::End(BytesEnd::new(name.as_str())),
    };
    let _ = writer.write_event(outcome);
}

/// quick_xml's `Writer::get_mut`, with `std::mem::take` on the buffer it
/// gives: the bytes written so far are handed out and the buffer is left
/// empty; where the writer stands is unchanged.
#[verifier::external_body]
pub(crate) fn drain(writer: &mut Writer<Vec<u8>>) -> (out: Vec<u8>)
    ensures
        out@ == written(*old(writer)),
        written(*final(writer)) == Seq::<u8>::empty(),
        layout_of(*final(writer)) == layout_of(*old(writer)),
{
    std::mem::take(writer.get_mut())
}

/// Writes `event` after the events `done`, which the writer has written since
/// it stood at `origin` with `base` in its buffer.
pub(crate) fn emit_next(
    writer: &mut Writer<Vec<u8>>,
    event: &XmlEvent,
    Ghost(base): Ghost<Seq<u8>>,
    Ghost(origin): Ghost<Layout>,
    Ghost(done): Ghost<Seq<XmlEventView>>,
)
    requires
        written(*old(writer)) == base + encode_utf8(markup(origin, done)),
        layout_of(*old(writer)) == layout_at(origin, done),
        layout_of(*old(writer)).pad < '\u{80}',
        event@ is Start ==> layout_of(*old(writer)).width + layout_of(*old(writer)).unit
            <= isize::MAX,
    ensures
        written(*final(writer)) == base + encode_utf8(markup(origin, done.push(event@))),
        layout_of(*final(writer)) == layout_at(origin, done.push(event@)),
        layout_of(*final(writer)) == layout_after(layout_of(*old(writer)), event@),
{
    emit(writer, event);
    proof {
        let next = done.push(event@);
        assert(next.drop_last() =~= done);
        assert(next.last() == event@);
        lemma_encode_concat(markup(origin, done), event_text(layout_at(origin, done), event@));
        assert(written(*writer) =~= base + encode_utf8(markup(origin, next)));
    }
}

/// Writes `events`, one after the other, after the events `done`.
pub(crate) fn emit_all(
    writer: &mut Writer<Vec<u8>>,
    events: &Vec<XmlEvent>,
    Ghost(base): Ghost<Seq<u8>>,
    Ghost(origin): Ghost<Layout>,
    Ghost(done): Ghost<Seq<XmlEventView>>,
)
    requires
        written(*old(writer)) == base + encode_utf8(markup(origin, done)),
        layout_of(*old(writer)) == layout_at(origin, done),
        layout_of(*old(writer)).pad < '\u{80}',
        layout_of(*old(writer)).width + events@.len() * layout_of(*old(writer)).unit
            <= isize::MAX,
    ensures
        written(*final(writer)) == base + encode_utf8(markup(origin, done + views(events@))),
        layout_of(*final(writer)) == layout_at(origin, done + views(events@)),
{
    let ghost first = layout_of(*writer);
    let mut i: usize = 0;
    proof {
        assert(done + views(events@).take(0) =~= done);
        assert(0 * first.unit == 0) by (nonlinear_arith);
    }
    while i < events.len()
        invariant
            i <= events@.len(),
            written(*writer) == base + encode_utf8(
                markup(origin, done + views(events@).take(i as int)),
            ),
            layout_of(*writer) == layout_at(origin, done + views(events@).take(i as int)),
            layout_of(*writer).pad == first.pad,
            layout_of(*writer).unit == first.unit,
            layout_of(*writer).width <= first.width + i * first.unit,
            first.pad < '\u{80}',
            first.width + events@.len() * first.unit <= isize::MAX,
        decreases events@.len() - i,
    {
        let ghost so_far = done + views(events@).take(i as int);
        proof {
            assert((i + 1) * first.unit == i * first.unit + first.unit) by (nonlinear_arith);
            assert((i + 1) * first.unit <= events@.len() * first.unit) by (nonlinear_arith)
                requires
                    i + 1 <= events@.len(),
            ;
        }
        emit_next(writer, &events[i], Ghost(base), Ghost(origin), Ghost(so_far));
        proof {
            assert(so_far.push(events@[i as int]@) =~= done + views(events@).take(i + 1));
        }
        i += 1;
    }
    proof {
        assert(views(events@).take(events@.len() as int) =~= views(events@));
    }
}

/// Where a writer stands before its first event.
pub open spec fn margin(pad: u8, unit: usize) -> Layout {
    Layout { width: 0, unit: unit as nat, pad: pad as char, pending_break: false }
}

/// The bytes of `events` as an indenting writer writes them from the
/// margin, padding with `pad`, `unit` times for each level of nesting. There
/// are none where `pad` is not ASCII, or where the events are so many that
/// no string could hold their indentation.
pub fn render(events: &Vec<XmlEvent>, pad: u8, unit: usize) -> (out: Option<Vec<u8>>)
    ensures
        out is Some <==> pad < 0x80 && events@.len() * unit <= isize::MAX,
        out matches Some(bytes) ==> bytes@ == encode_utf8(
            markup(margin(pad, unit), views(events@)),
        ),
{
    if pad >= 0x80 {
        return None;
    }
    match events.len().checked_mul(unit) {
        None => None,
        Some(deepest) => {
            if deepest > isize::MAX as usize {
                return None;
            }
            let mut writer = new_writer(pad, unit);
            proof {
                assert(Seq::<u8>::empty() + encode_utf8(markup(margin(pad, unit), Seq::empty()))
                    =~= Seq::<u8>::empty());
                assert(Seq::<XmlEventView>::empty() + views(events@) =~= views(events@));
                assert(Seq::<u8>::empty() + encode_utf8(
                    markup(margin(pad, unit), views(events@)),
                ) =~= encode_utf8(markup(margin(pad, unit), views(events@))));
            }
            emit_all(
                &mut writer,
                events,
                Ghost(Seq::empty()),
                Ghost(margin(pad, unit)),
                Ghost(Seq::empty()),
            );
            Some(drain(&mut writer))
        },
    }
}

} // verus!
