//! How a stream of events reads as text: escaping, tags, line breaks and
//! indentation.

use crate::event::{AttributeView, XmlEventView};
use vstd::prelude::*;
use vstd::utf8::encode_utf8;

verus! {

/// Where an indenting writer stands between two events.
pub struct Layout {
    /// How many padding characters the next line starts with.
    pub width: nat,
    /// How many padding characters one level of nesting adds.
    pub unit: nat,
    /// The padding character.
    pub pad: char,
    /// Whether the next tag goes on a line of its own.
    pub pending_break: bool,
}

/// What stands for `c` in character data.
pub open spec fn text_entity(c: char) -> Seq<char> {
    if c == '<' {
        "&lt;"@
    } else if c == '>' {
        "&gt;"@
    } else if c == '&' {
        "&amp;"@
    } else if c == '\'' {
        "&apos;"@
    } else if c == '"' {
        "&quot;"@
    } else if c == '\r' {
        "&#13;"@
    } else {
        seq![c]
    }
}

/// What stands for `c` in the value of an attribute.
pub open spec fn value_entity(c: char) -> Seq<char> {
    if c == '\n' {
        "&#10;"@
    } else if c == '\t' {
        "&#9;"@
    } else {
        text_entity(c)
    }
}

/// `s` as character data: each character replaced by what stands for it.
pub open spec fn escape_text(s: Seq<char>) -> Seq<char>
    decreases s.len(),
{
    if s.len() == 0 {
        Seq::empty()
    } else {
        text_entity(s[0]) + escape_text(s.drop_first())
    }
}

/// `s` as the value of an attribute.
pub open spec fn escape_value(s: Seq<char>) -> Seq<char>
    decreases s.len(),
{
    if s.len() == 0 {
        Seq::empty()
    } else {
        value_entity(s[0]) + escape_value(s.drop_first())
    }
}

/// One attribute as it stands in a tag, with the blank before it.
pub open spec fn attribute_text(a: AttributeView) -> Seq<char> {
    " "@ + a.key + "=\""@ + escape_value(a.value) + "\""@
}

/// The attributes of a tag, in order.
pub open spec fn attributes_text(attributes: Seq<AttributeView>) -> Seq<char>
    decreases attributes.len(),
{
    if attributes.len() == 0 {
        Seq::empty()
    } else {
        attributes_text(attributes.drop_last()) + attribute_text(attributes.last())
    }
}

/// `width` padding characters.
pub open spec fn padding(pad: char, width: nat) -> Seq<char> {
    Seq::new(width, |i: int| pad)
}

/// What a tag is preceded by: a line break and the indentation where a break
/// is pending, else nothing.
pub open spec fn break_text(layout: Layout) -> Seq<char> {
    if layout.pending_break {
        "\n"@ + padding(layout.pad, layout.width)
    } else {
        Seq::empty()
    }
}

/// The layout one level further in.
pub open spec fn grown(layout: Layout) -> Layout {
    Layout { width: layout.width + layout.unit, ..layout }
}

/// The layout one level further out, and never further out than the margin.
pub open spec fn shrunk(layout: Layout) -> Layout {
    Layout {
        width: if layout.width >= layout.unit {
            (layout.width - layout.unit) as nat
        } else {
            0
        },
        ..layout
    }
}

/// The text that an event adds when the writer stands at `layout`.
pub open spec fn event_text(layout: Layout, event: XmlEventView) -> Seq<char> {
    match event {
        XmlEventView::Declaration { version, encoding } => break_text(layout) + "<?"@
            + "xml version=\""@ + version + "\" encoding=\""@ + encoding + "\""@ + "?>"@,
        XmlEventView::Start { name, attributes } => break_text(layout) + "<"@ + name
            + attributes_text(attributes) + ">"@,
        XmlEventView::Text { content } => escape_text(content),
        XmlEventView::End { name } => break_text(shrunk(layout)) + "</"@ + name + ">"@,
    }
}

/// Where the writer stands after an event that it met at `layout`.
pub open spec fn layout_after(layout: Layout, event: XmlEventView) -> Layout {
    match event {
        XmlEventView::Declaration { .. } => Layout { pending_break: true, ..layout },
        XmlEventView::Start { .. } => Layout { pending_break: true, ..grown(layout) },
        XmlEventView::Text { .. } => Layout { pending_break: false, ..layout },
        XmlEventView::End { .. } => Layout { pending_break: true, ..shrunk(layout) },
    }
}

/// Where the writer stands after `events`, having started at `layout`.
pub open spec fn layout_at(layout: Layout, events: Seq<XmlEventView>) -> Layout
    decreases events.len(),
{
    if events.len() == 0 {
        layout
    } else {
        layout_after(layout_at(layout, events.drop_last()), events.last())
    }
}

/// The text of `events` for a writer that starts at `layout`.
pub open spec fn markup(layout: Layout, events: Seq<XmlEventView>) -> Seq<char>
    decreases events.len(),
{
    if events.len() == 0 {
        Seq::empty()
    } else {
        markup(layout, events.drop_last()) + event_text(
            layout_at(layout, events.drop_last()),
            events.last(),
        )
    }
}

/// The bytes of a text that is made of two parts are the bytes of the parts.
pub proof fn lemma_encode_concat(a: Seq<char>, b: Seq<char>)
    ensures
        encode_utf8(a + b) == encode_utf8(a) + encode_utf8(b),
    decreases a.len(),
{
    if a.len() == 0 {
        assert(a + b =~= b);
        assert(encode_utf8(a) + encode_utf8(b) =~= encode_utf8(b));
    } else {
        lemma_encode_concat(a.drop_first(), b);
        assert((a + b).drop_first() =~= a.drop_first() + b);
        assert((a + b)[0] == a[0]);
        assert(encode_utf8(a + b) =~= encode_utf8(a) + encode_utf8(b));
    }
}

/// One event alone reads as its own text.
pub proof fn lemma_markup_single(layout: Layout, event: XmlEventView)
    ensures
        layout_at(layout, seq![event]) == layout_after(layout, event),
        markup(layout, seq![event]) == event_text(layout, event),
{
    let one = seq![event];
    assert(one.drop_last() =~= Seq::<XmlEventView>::empty());
    assert(layout_at(layout, one.drop_last()) == layout);
    assert(markup(layout, one.drop_last()) =~= Seq::<char>::empty());
    assert(markup(layout, one) =~= event_text(layout, event));
}

/// Events written one run after another read as the text of the first run
/// followed by the text of the second, which starts where the first ended.
pub proof fn lemma_markup_concat(layout: Layout, a: Seq<XmlEventView>, b: Seq<XmlEventView>)
    ensures
        layout_at(layout, a + b) == layout_at(layout_at(layout, a), b),
        markup(layout, a + b) == markup(layout, a) + markup(layout_at(layout, a), b),
    decreases b.len(),
{
    if b.len() == 0 {
        assert(a + b =~= a);
        assert(markup(layout, a) + markup(layout_at(layout, a), b) =~= markup(layout, a));
    } else {
        lemma_markup_concat(layout, a, b.drop_last());
        assert((a + b).drop_last() =~= a + b.drop_last());
        assert((a + b).last() == b.last());
        assert(markup(layout, a + b) =~= markup(layout, a) + markup(layout_at(layout, a), b));
    }
}

/// Whether `s` begins with `prefix`.
pub open spec fn begins_with(s: Seq<char>, prefix: Seq<char>) -> bool {
    prefix.len() <= s.len() && s.take(prefix.len() as int) == prefix
}

/// The character that the reference at the beginning of `s` stands for, and
/// the length of the reference; `None` where `s` begins with none of the
/// references that escaping writes.
pub open spec fn reference_at(s: Seq<char>) -> Option<(char, nat)> {
    if begins_with(s, "&lt;"@) {
        Some(('<', "&lt;"@.len()))
    } else if begins_with(s, "&gt;"@) {
        Some(('>', "&gt;"@.len()))
    } else if begins_with(s, "&amp;"@) {
        Some(('&', "&amp;"@.len()))
    } else if begins_with(s, "&apos;"@) {
        Some(('\'', "&apos;"@.len()))
    } else if begins_with(s, "&quot;"@) {
        Some(('"', "&quot;"@.len()))
    } else if begins_with(s, "&#13;"@) {
        Some(('\r', "&#13;"@.len()))
    } else if begins_with(s, "&#10;"@) {
        Some(('\n', "&#10;"@.len()))
    } else if begins_with(s, "&#9;"@) {
        Some(('\t', "&#9;"@.len()))
    } else {
        None
    }
}

/// What a reader makes of escaped text: each reference replaced by the
/// character it stands for, every other character kept.
pub open spec fn unescape(s: Seq<char>) -> Seq<char>
    decreases s.len(),
{
    if s.len() == 0 {
        Seq::empty()
    } else {
        match reference_at(s) {
            Some((c, n)) => if 0 < n <= s.len() {
                seq![c] + unescape(s.skip(n as int))
            } else {
                seq![s[0]] + unescape(s.drop_first())
            },
            None => seq![s[0]] + unescape(s.drop_first()),
        }
    }
}

proof fn lemma_not_that_reference(v: Seq<char>, reference: Seq<char>, k: int)
    requires
        0 <= k < reference.len(),
        k < v.len(),
        v[k] != reference[k],
    ensures
        !begins_with(v, reference),
{
    if begins_with(v, reference) {
        assert(v.take(reference.len() as int)[k] == v[k]);
    }
}

proof fn lemma_no_other_reference(v: Seq<char>, written: Seq<char>, other: Seq<char>)
    requires
        begins_with(v, written),
        written.len() >= 4,
        other.len() >= 4,
        written[0] != other[0] || written[1] != other[1] || written[2] != other[2] || written[3]
            != other[3],
    ensures
        !begins_with(v, other),
{
    let head = v.take(written.len() as int);
    assert(head[0] == v[0] && head[1] == v[1] && head[2] == v[2] && head[3] == v[3]);
    if written[0] != other[0] {
        lemma_not_that_reference(v, other, 0);
    } else if written[1] != other[1] {
        lemma_not_that_reference(v, other, 1);
    } else if written[2] != other[2] {
        lemma_not_that_reference(v, other, 2);
    } else {
        lemma_not_that_reference(v, other, 3);
    }
}

proof fn lemma_reference_found(entity: Seq<char>, c: char, rest: Seq<char>)
    requires
        entity == value_entity(c),
    ensures
        unescape(entity + rest) == seq![c] + unescape(rest),
{
    reveal_strlit("&lt;");
    reveal_strlit("&gt;");
    reveal_strlit("&amp;");
    reveal_strlit("&apos;");
    reveal_strlit("&quot;");
    reveal_strlit("&#13;");
    reveal_strlit("&#10;");
    reveal_strlit("&#9;");
    let v = entity + rest;
    assert(v.take(entity.len() as int) =~= entity);
    assert(v.skip(entity.len() as int) =~= rest);
    assert(v[0] == entity[0]);
    if entity.len() > 1 {
        if entity != "&lt;"@ {
            lemma_no_other_reference(v, entity, "&lt;"@);
        }
        if entity != "&gt;"@ {
            lemma_no_other_reference(v, entity, "&gt;"@);
        }
        if entity != "&amp;"@ {
            lemma_no_other_reference(v, entity, "&amp;"@);
        }
        if entity != "&apos;"@ {
            lemma_no_other_reference(v, entity, "&apos;"@);
        }
        if entity != "&quot;"@ {
            lemma_no_other_reference(v, entity, "&quot;"@);
        }
        if entity != "&#13;"@ {
            lemma_no_other_reference(v, entity, "&#13;"@);
        }
        if entity != "&#10;"@ {
            lemma_no_other_reference(v, entity, "&#10;"@);
        }
        if entity != "&#9;"@ {
            lemma_no_other_reference(v, entity, "&#9;"@);
        }
    } else {
        lemma_not_that_reference(v, "&lt;"@, 0);
        lemma_not_that_reference(v, "&gt;"@, 0);
        lemma_not_that_reference(v, "&amp;"@, 0);
        lemma_not_that_reference(v, "&apos;"@, 0);
        lemma_not_that_reference(v, "&quot;"@, 0);
        lemma_not_that_reference(v, "&#13;"@, 0);
        lemma_not_that_reference(v, "&#10;"@, 0);
        lemma_not_that_reference(v, "&#9;"@, 0);
        assert(v.drop_first() =~= rest);
    }
    assert(unescape(v) =~= seq![c] + unescape(rest));
}

proof fn lemma_text_reference_found(c: char, rest: Seq<char>)
    ensures
        unescape(text_entity(c) + rest) == seq![c] + unescape(rest),
{
    if c == '\n' || c == '\t' {
        reveal_strlit("&lt;");
        reveal_strlit("&gt;");
        reveal_strlit("&amp;");
        reveal_strlit("&apos;");
        reveal_strlit("&quot;");
        reveal_strlit("&#13;");
        reveal_strlit("&#10;");
        reveal_strlit("&#9;");
        let v = text_entity(c) + rest;
        lemma_not_that_reference(v, "&lt;"@, 0);
        lemma_not_that_reference(v, "&gt;"@, 0);
        lemma_not_that_reference(v, "&amp;"@, 0);
        lemma_not_that_reference(v, "&apos;"@, 0);
        lemma_not_that_reference(v, "&quot;"@, 0);
        lemma_not_that_reference(v, "&#13;"@, 0);
        lemma_not_that_reference(v, "&#10;"@, 0);
        lemma_not_that_reference(v, "&#9;"@, 0);
        assert(v.drop_first() =~= rest);
        assert(unescape(v) =~= seq![c] + unescape(rest));
    } else {
        lemma_reference_found(text_entity(c), c, rest);
    }
}

/// Escaping loses nothing: a reader of the escaped text, be it character
/// data or the value of an attribute, gets back the text as it was, whatever
/// characters it holds.
pub proof fn lemma_escape_round_trip(s: Seq<char>)
    ensures
        unescape(escape_text(s)) == s,
        unescape(escape_value(s)) == s,
    decreases s.len(),
{
    if s.len() > 0 {
        lemma_escape_round_trip(s.drop_first());
        lemma_text_reference_found(s[0], escape_text(s.drop_first()));
        lemma_reference_found(value_entity(s[0]), s[0], escape_value(s.drop_first()));
        assert(seq![s[0]] + s.drop_first() =~= s);
    }
}

} // verus!
