//! Lines, fields and numbers as sequences of characters.

use vstd::prelude::*;

verus! {

/// The view of each string of `v`, in order.
pub open spec fn texts(v: Seq<String>) -> Seq<Seq<char>> {
    Seq::new(v.len(), |i: int| v[i]@)
}

/// Whether `c` carries the Unicode property `White_Space`.
pub open spec fn is_space(c: char) -> bool {
    ||| ('\u{9}' <= c && c <= '\u{d}')
    ||| c == ' '
    ||| c == '\u{85}'
    ||| c == '\u{a0}'
    ||| c == '\u{1680}'
    ||| ('\u{2000}' <= c && c <= '\u{200a}')
    ||| c == '\u{2028}'
    ||| c == '\u{2029}'
    ||| c == '\u{202f}'
    ||| c == '\u{205f}'
    ||| c == '\u{3000}'
}

/// `s` without its leading white space.
pub open spec fn trim_start(s: Seq<char>) -> Seq<char>
    decreases s.len(),
{
    if s.len() > 0 && is_space(s[0]) {
        trim_start(s.drop_first())
    } else {
        s
    }
}

/// `s` without its trailing white space.
pub open spec fn trim_end(s: Seq<char>) -> Seq<char>
    decreases s.len(),
{
    if s.len() > 0 && is_space(s.last()) {
        trim_end(s.drop_last())
    } else {
        s
    }
}

/// `s` without the white space at either end.
pub open spec fn trim(s: Seq<char>) -> Seq<char> {
    trim_end(trim_start(s))
}

/// A line is blank when nothing is left of it after trimming.
pub open spec fn is_blank(s: Seq<char>) -> bool {
    trim(s).len() == 0
}

/// The pieces of `s` between the occurrences of `d`, empty pieces included.
pub open spec fn split(s: Seq<char>, d: char) -> Seq<Seq<char>>
    decreases s.len(),
{
    if s.len() == 0 {
        seq![Seq::<char>::empty()]
    } else {
        let before = split(s.drop_last(), d);
        if s.last() == d {
            before.push(Seq::<char>::empty())
        } else {
            before.update(before.len() - 1, before.last().push(s.last()))
        }
    }
}

/// The fields of a line: the pieces of the line between delimiters, with
/// whatever white space they hold.
pub open spec fn fields_of(line: Seq<char>, d: char) -> Seq<Seq<char>> {
    split(line, d)
}

/// `s` without the carriage return at its end, if there is one.
pub open spec fn chomp(s: Seq<char>) -> Seq<char> {
    if s.len() > 0 && s.last() == '\r' {
        s.drop_last()
    } else {
        s
    }
}

/// Each of `pieces` without the carriage return at its end.
pub open spec fn chomped(pieces: Seq<Seq<char>>) -> Seq<Seq<char>> {
    Seq::new(pieces.len(), |i: int| chomp(pieces[i]))
}

/// The lines of an input, without their terminators. A line is ended by a
/// line feed, or by a carriage return and a line feed; what stands after the
/// last line feed is a line as it is, unless nothing stands there.
pub open spec fn lines_of(input: Seq<char>) -> Seq<Seq<char>> {
    let pieces = split(input, '\n');
    if pieces.last().len() == 0 {
        chomped(pieces.drop_last())
    } else {
        chomped(pieces.drop_last()).push(pieces.last())
    }
}

/// The pieces `parts` put together again, with `d` between neighbours.
pub open spec fn join(parts: Seq<Seq<char>>, d: char) -> Seq<char>
    decreases parts.len(),
{
    if parts.len() == 0 {
        Seq::<char>::empty()
    } else if parts.len() == 1 {
        parts[0]
    } else {
        join(parts.drop_last(), d) + seq![d] + parts.last()
    }
}

/// The decimal digit for `d`, which is below ten.
pub open spec fn digit(d: nat) -> char {
    if d == 0 {
        '0'
    } else if d == 1 {
        '1'
    } else if d == 2 {
        '2'
    } else if d == 3 {
        '3'
    } else if d == 4 {
        '4'
    } else if d == 5 {
        '5'
    } else if d == 6 {
        '6'
    } else if d == 7 {
        '7'
    } else if d == 8 {
        '8'
    } else {
        '9'
    }
}

/// `n` in decimal notation, without leading zeros.
pub open spec fn decimal(n: nat) -> Seq<char>
    decreases n,
{
    if n < 10 {
        seq![digit(n)]
    } else {
        decimal(n / 10).push(digit(n % 10))
    }
}

/// `String::push`: appends one character to the end of the string.
#[verifier::external_body]
pub(crate) fn push_char(s: &mut String, c: char)
    ensures
        final(s)@ == old(s)@.push(c),
{
    s.push(c)
}

proof fn lemma_trim_start_is_skip(s: Seq<char>, a: int)
    requires
        0 <= a <= s.len(),
        forall|i: int| 0 <= i < a ==> is_space(#[trigger] s[i]),
        a == s.len() || !is_space(s[a]),
    ensures
        trim_start(s) == s.skip(a),
    decreases a,
{
    if a == 0 {
        assert(s.skip(0) =~= s);
    } else {
        let rest = s.drop_first();
        assert forall|i: int| 0 <= i < a - 1 implies is_space(#[trigger] rest[i]) by {
            assert(rest[i] == s[i + 1]);
        }
        lemma_trim_start_is_skip(rest, a - 1);
        assert(rest.skip(a - 1) =~= s.skip(a));
    }
}

proof fn lemma_trim_end_is_take(s: Seq<char>, b: int)
    requires
        0 <= b <= s.len(),
        forall|i: int| b <= i < s.len() ==> is_space(#[trigger] s[i]),
        b == 0 || !is_space(s[b - 1]),
    ensures
        trim_end(s) == s.take(b),
    decreases s.len() - b,
{
    if b == s.len() {
        assert(s.take(b) =~= s);
    } else {
        let rest = s.drop_last();
        assert forall|i: int| b <= i < rest.len() implies is_space(#[trigger] rest[i]) by {
            assert(rest[i] == s[i]);
        }
        lemma_trim_end_is_take(rest, b);
        assert(rest.take(b) =~= s.take(b));
    }
}

/// Whether `s` holds nothing but white space.
pub open spec fn all_space(s: Seq<char>) -> bool {
    forall|i: int| 0 <= i < s.len() ==> is_space(#[trigger] s[i])
}

proof fn lemma_trim_start_facts(s: Seq<char>)
    ensures
        trim_start(s).len() > 0 ==> !is_space(trim_start(s)[0]),
        trim_start(s).len() == 0 <==> all_space(s),
    decreases s.len(),
{
    if s.len() > 0 && is_space(s[0]) {
        let rest = s.drop_first();
        lemma_trim_start_facts(rest);
        if all_space(rest) {
            assert forall|i: int| 0 <= i < s.len() implies is_space(#[trigger] s[i]) by {
                if i > 0 {
                    assert(rest[i - 1] == s[i]);
                }
            }
        }
        if all_space(s) {
            assert forall|i: int| 0 <= i < rest.len() implies is_space(#[trigger] rest[i]) by {
                assert(rest[i] == s[i + 1]);
            }
        }
    } else if s.len() > 0 {
        assert(!is_space(s[0]));
    }
}

proof fn lemma_trim_end_facts(s: Seq<char>)
    ensures
        trim_end(s).len() == 0 <==> all_space(s),
    decreases s.len(),
{
    if s.len() > 0 && is_space(s.last()) {
        let rest = s.drop_last();
        lemma_trim_end_facts(rest);
        if all_space(rest) {
            assert forall|i: int| 0 <= i < s.len() implies is_space(#[trigger] s[i]) by {
                if i < s.len() - 1 {
                    assert(rest[i] == s[i]);
                }
            }
        }
        if all_space(s) {
            assert forall|i: int| 0 <= i < rest.len() implies is_space(#[trigger] rest[i]) by {
                assert(rest[i] == s[i]);
            }
        }
    } else if s.len() > 0 {
        assert(!is_space(s[s.len() - 1]));
    }
}

/// The blank lines are those that hold nothing but white space.
pub proof fn lemma_blank_is_all_space(s: Seq<char>)
    ensures
        is_blank(s) <==> all_space(s),
{
    lemma_trim_start_facts(s);
    lemma_trim_end_facts(trim_start(s));
    let t = trim_start(s);
    if t.len() > 0 {
        assert(!is_space(t[0]));
    }
}

/// Trimming leaves no white space at either end, and trimming again changes
/// nothing.
pub proof fn lemma_trim_is_tight(s: Seq<char>)
    ensures
        trim(s).len() > 0 ==> !is_space(trim(s)[0]) && !is_space(trim(s).last()),
        trim(trim(s)) == trim(s),
{
    lemma_trim_start_facts(s);
    lemma_trim_end_keeps_start(trim_start(s));
    lemma_trim_end_tight(trim_start(s));
    let t = trim(s);
    if t.len() > 0 {
        lemma_trim_start_is_skip(t, 0);
        assert(t.skip(0) =~= t);
        lemma_trim_end_is_take(t, t.len() as int);
        assert(t.take(t.len() as int) =~= t);
    } else {
        assert(trim_start(t) =~= t);
    }
}

proof fn lemma_trim_end_keeps_start(s: Seq<char>)
    requires
        s.len() > 0 ==> !is_space(s[0]),
    ensures
        trim_end(s).len() > 0 ==> trim_end(s)[0] == s[0],
        s.len() > 0 ==> trim_end(s).len() > 0,
    decreases s.len(),
{
    if s.len() > 0 && is_space(s.last()) {
        let rest = s.drop_last();
        if rest.len() > 0 {
            assert(rest[0] == s[0]);
        }
        lemma_trim_end_keeps_start(rest);
    }
}

proof fn lemma_trim_end_tight(s: Seq<char>)
    ensures
        trim_end(s).len() > 0 ==> !is_space(trim_end(s).last()),
    decreases s.len(),
{
    if s.len() > 0 && is_space(s.last()) {
        lemma_trim_end_tight(s.drop_last());
    }
}

/// There is at least one piece, and no piece holds the delimiter or a
/// character that `s` does not hold.
pub proof fn lemma_split_pieces(s: Seq<char>, d: char)
    ensures
        split(s, d).len() >= 1,
        forall|i: int, j: int|
            0 <= i < split(s, d).len() && 0 <= j < split(s, d)[i].len() ==> #[trigger] split(
                s,
                d,
            )[i][j] != d && s.contains(split(s, d)[i][j]),
    decreases s.len(),
{
    if s.len() > 0 {
        let before = split(s.drop_last(), d);
        lemma_split_pieces(s.drop_last(), d);
        let all = split(s, d);
        assert forall|i: int, j: int|
            0 <= i < all.len() && 0 <= j < all[i].len() implies #[trigger] all[i][j] != d
            && s.contains(all[i][j]) by {
            if s.last() != d && i == before.len() - 1 && j == before.last().len() {
                assert(all[i][j] == s[s.len() - 1]);
            } else {
                let c = before[i][j];
                assert(all[i][j] == c);
                assert(s.drop_last().contains(c));
                let k = choose|k: int| 0 <= k < s.drop_last().len() && s.drop_last()[k] == c;
                assert(s[k] == c);
            }
        }
    }
}

/// The last piece ends where the text ends: it is empty where the text is
/// empty or ends in the delimiter, and else ends in the last character.
pub proof fn lemma_split_last(s: Seq<char>, d: char)
    ensures
        split(s, d).last().len() > 0 ==> s.len() > 0 && split(s, d).last().last() == s.last(),
        split(s, d).last().len() == 0 <==> s.len() == 0 || s.last() == d,
{
    if s.len() > 0 {
        lemma_split_pieces(s.drop_last(), d);
    }
}

/// The pieces of a text, joined again, are the text.
pub proof fn lemma_join_split(s: Seq<char>, d: char)
    ensures
        join(split(s, d), d) == s,
    decreases s.len(),
{
    if s.len() == 0 {
        assert(join(split(s, d), d) =~= s);
    } else {
        let before = split(s.drop_last(), d);
        lemma_split_pieces(s.drop_last(), d);
        lemma_join_split(s.drop_last(), d);
        let all = split(s, d);
        if s.last() == d {
            assert(all.drop_last() =~= before);
            assert(join(all, d) =~= s.drop_last() + seq![d] + Seq::<char>::empty());
            assert(s.drop_last() + seq![d] + Seq::<char>::empty() =~= s);
        } else if before.len() == 1 {
            assert(join(before, d) == before[0]);
            assert(join(all, d) =~= before[0].push(s.last()));
            assert(s.drop_last().push(s.last()) =~= s);
        } else {
            assert(all.drop_last() =~= before.drop_last());
            assert(join(before, d) == join(before.drop_last(), d) + seq![d] + before.last());
            assert(join(all, d) =~= (join(before.drop_last(), d) + seq![d] + before.last()).push(
                s.last(),
            ));
            assert(s.drop_last().push(s.last()) =~= s);
        }
    }
}

/// A text with a delimiter in it splits into the pieces of what stands
/// before the delimiter and the pieces of what stands after it.
pub proof fn lemma_split_at_delimiter(a: Seq<char>, b: Seq<char>, d: char)
    ensures
        split(a + seq![d] + b, d) == split(a, d) + split(b, d),
    decreases b.len(),
{
    let s = a + seq![d] + b;
    lemma_split_pieces(a, d);
    if b.len() == 0 {
        assert(s.drop_last() =~= a);
        assert(split(s, d) =~= split(a, d) + split(b, d));
    } else {
        let rest = b.drop_last();
        lemma_split_at_delimiter(a, rest, d);
        lemma_split_pieces(rest, d);
        assert(s.drop_last() =~= a + seq![d] + rest);
        assert(s.last() == b.last());
        assert(split(s, d) =~= split(a, d) + split(b, d));
    }
}

/// A text with a line feed in it has the lines that are ended before the
/// line feed and at it, and then the lines of what stands after it.
pub proof fn lemma_lines_at_line_feed(a: Seq<char>, b: Seq<char>)
    ensures
        lines_of(a + seq!['\n'] + b) == chomped(split(a, '\n')) + lines_of(b),
{
    let first = split(a, '\n');
    let second = split(b, '\n');
    lemma_split_at_delimiter(a, b, '\n');
    lemma_split_pieces(b, '\n');
    let pieces = first + second;
    assert(pieces.last() == second.last());
    assert(pieces.drop_last() =~= first + second.drop_last());
    assert(chomped(first + second.drop_last()) =~= chomped(first) + chomped(second.drop_last()));
    assert(lines_of(a + seq!['\n'] + b) =~= chomped(first) + lines_of(b));
}

/// Whether `c` is white space.
pub fn is_whitespace(c: char) -> (r: bool)
    ensures
        r == is_space(c),
{
    ('\u{9}' <= c && c <= '\u{d}') || c == ' ' || c == '\u{85}' || c == '\u{a0}' || c == '\u{1680}'
        || ('\u{2000}' <= c && c <= '\u{200a}') || c == '\u{2028}' || c == '\u{2029}' || c
        == '\u{202f}' || c == '\u{205f}' || c == '\u{3000}'
}

/// The characters of `s`.
pub fn to_chars(s: &str) -> (v: Vec<char>)
    ensures
        v@ == s@,
{
    let mut v: Vec<char> = Vec::new();
    for c in it: s.chars()
        invariant
            it.seq() == s@,
            v@ == s@.take(it.index()),
    {
        v.push(c);
    }
    assert(s@.take(s@.len() as int) =~= s@);
    v
}

/// Where the trimmed part of `chars` begins and ends: it begins after the
/// leading white space.
pub fn trimmed_span(chars: &[char]) -> (span: (usize, usize))
    ensures
        span.0 <= span.1 <= chars@.len(),
        span.0 == chars@.len() - trim_start(chars@).len(),
        chars@.subrange(span.0 as int, span.1 as int) == trim(chars@),
{
    let n = chars.len();
    let mut a: usize = 0;
    while a < n && is_whitespace(chars[a])
        invariant
            a <= n == chars@.len(),
            forall|i: int| 0 <= i < a ==> is_space(#[trigger] chars@[i]),
        decreases n - a,
    {
        a += 1;
    }
    let mut b: usize = n;
    while b > a && is_whitespace(chars[b - 1])
        invariant
            a <= b <= n == chars@.len(),
            forall|i: int| b <= i < n ==> is_space(#[trigger] chars@[i]),
        decreases b,
    {
        b -= 1;
    }
    proof {
        let s = chars@;
        lemma_trim_start_is_skip(s, a as int);
        let t = s.skip(a as int);
        assert forall|i: int| b - a <= i < t.len() implies is_space(#[trigger] t[i]) by {
            assert(t[i] == s[i + a]);
        }
        if b > a {
            assert(t[b - a - 1] == s[b - 1]);
        }
        lemma_trim_end_is_take(t, b - a);
        assert(t.take(b - a) =~= s.subrange(a as int, b as int));
    }
    (a, b)
}

/// The pieces of `chars[from..to]` between the occurrences of `delimiter`.
pub(crate) fn split_span(chars: &[char], from: usize, to: usize, delimiter: char) -> (fields: Vec<
    String,
>)
    requires
        from <= to <= chars@.len(),
    ensures
        texts(fields@) == split(chars@.subrange(from as int, to as int), delimiter),
{
    let mut fields: Vec<String> = Vec::new();
    let mut current = String::new();
    let mut i: usize = from;
    while i < to
        invariant
            from <= i <= to <= chars@.len(),
            texts(fields@).push(current@) == split(
                chars@.subrange(from as int, i as int),
                delimiter,
            ),
        decreases to - i,
    {
        let c = chars[i];
        let ghost seen = chars@.subrange(from as int, i as int);
        let ghost next = chars@.subrange(from as int, i + 1);
        let ghost done = texts(fields@);
        let ghost piece = current@;
        assert(next.drop_last() =~= seen);
        assert(next.last() == c);
        if c == delimiter {
            fields.push(current);
            current = String::new();
            assert(texts(fields@) =~= done.push(piece));
        } else {
            push_char(&mut current, c);
            assert(texts(fields@).push(current@) =~= done.push(piece).update(
                done.len() as int,
                piece.push(c),
            ));
        }
        i += 1;
    }
    let ghost done = texts(fields@);
    let ghost piece = current@;
    fields.push(current);
    assert(texts(fields@) =~= done.push(piece));
    fields
}

/// The fields of `line`, or `None` where the line is blank. A line is blank
/// where nothing is left of it after trimming; the fields are cut from the
/// line as it is.
pub fn parse_line(line: &str, delimiter: char) -> (fields: Option<Vec<String>>)
    ensures
        is_blank(line@) <==> fields is None,
        fields matches Some(f) ==> texts(f@) == split(line@, delimiter),
{
    let chars = to_chars(line);
    let (a, b) = trimmed_span(chars.as_slice());
    if a == b {
        None
    } else {
        let n = chars.len();
        assert(chars@.subrange(0, n as int) =~= chars@);
        Some(split_span(chars.as_slice(), 0, n, delimiter))
    }
}

/// The string made of `chars[from..to]`.
pub(crate) fn span_text(chars: &[char], from: usize, to: usize) -> (s: String)
    requires
        from <= to <= chars@.len(),
    ensures
        s@ == chars@.subrange(from as int, to as int),
{
    let mut s = String::new();
    let mut i: usize = from;
    while i < to
        invariant
            from <= i <= to <= chars@.len(),
            s@ == chars@.subrange(from as int, i as int),
        decreases to - i,
    {
        push_char(&mut s, chars[i]);
        assert(chars@.subrange(from as int, i + 1) =~= chars@.subrange(from as int, i as int).push(
            chars@[i as int],
        ));
        i += 1;
    }
    s
}

/// The lines of `input`, without their terminators.
pub fn lines_in(input: &str) -> (lines: Vec<String>)
    ensures
        texts(lines@) == lines_of(input@),
{
    let chars = to_chars(input);
    let n = chars.len();
    let mut lines: Vec<String> = Vec::new();
    let mut start: usize = 0;
    let mut i: usize = 0;
    proof {
        assert(chars@.take(0) =~= Seq::<char>::empty());
        assert(chars@.subrange(0, 0) =~= Seq::<char>::empty());
        assert(split(chars@.take(0), '\n').drop_last() =~= Seq::<Seq<char>>::empty());
        assert(texts(lines@) =~= chomped(Seq::<Seq<char>>::empty()));
    }
    while i < n
        invariant
            start <= i <= n == chars@.len(),
            chars@ == input@,
            split(chars@.take(i as int), '\n').len() >= 1,
            texts(lines@) == chomped(split(chars@.take(i as int), '\n').drop_last()),
            split(chars@.take(i as int), '\n').last() == chars@.subrange(start as int, i as int),
        decreases n - i,
    {
        let ghost pieces = split(chars@.take(i as int), '\n');
        let ghost next = chars@.take(i + 1);
        let ghost done = texts(lines@);
        proof {
            assert(next.drop_last() =~= chars@.take(i as int));
            assert(next.last() == chars@[i as int]);
        }
        if chars[i] == '\n' {
            let end = if i > start && chars[i - 1] == '\r' {
                i - 1
            } else {
                i
            };
            let line = span_text(chars.as_slice(), start, end);
            proof {
                let piece = chars@.subrange(start as int, i as int);
                if i > start {
                    assert(piece.last() == chars@[i - 1]);
                }
                assert(line@ =~= chomp(piece));
                assert(split(next, '\n').drop_last() =~= pieces);
                assert(chomped(pieces) =~= chomped(pieces.drop_last()).push(chomp(piece)));
            }
            lines.push(line);
            start = i + 1;
            proof {
                assert(texts(lines@) =~= done.push(chomp(pieces.last())));
                assert(chars@.subrange(i + 1, i + 1) =~= Seq::<char>::empty());
            }
        } else {
            proof {
                assert(split(next, '\n').drop_last() =~= pieces.drop_last());
                assert(chars@.subrange(start as int, i + 1) =~= chars@.subrange(
                    start as int,
                    i as int,
                ).push(chars@[i as int]));
            }
        }
        i += 1;
    }
    proof {
        assert(chars@.take(n as int) =~= chars@);
    }
    if start < n {
        let ghost done = texts(lines@);
        let line = span_text(chars.as_slice(), start, n);
        lines.push(line);
        proof {
            assert(texts(lines@) =~= done.push(chars@.subrange(start as int, n as int)));
        }
    }
    lines
}

/// The decimal digit for `d`.
fn digit_char(d: usize) -> (c: char)
    requires
        d < 10,
    ensures
        c == digit(d as nat),
{
    if d == 0 {
        '0'
    } else if d == 1 {
        '1'
    } else if d == 2 {
        '2'
    } else if d == 3 {
        '3'
    } else if d == 4 {
        '4'
    } else if d == 5 {
        '5'
    } else if d == 6 {
        '6'
    } else if d == 7 {
        '7'
    } else if d == 8 {
        '8'
    } else {
        '9'
    }
}

/// `n` written in decimal.
pub fn decimal_string(n: usize) -> (s: String)
    ensures
        s@ == decimal(n as nat),
    decreases n,
{
    if n < 10 {
        let mut s = String::new();
        push_char(&mut s, digit_char(n));
        assert(s@ =~= seq![digit(n as nat)]);
        s
    } else {
        let mut s = decimal_string(n / 10);
        push_char(&mut s, digit_char(n % 10));
        s
    }
}

} // verus!
