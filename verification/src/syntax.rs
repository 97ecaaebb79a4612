//! The lines of a settings file.
//!
//! A line is read without the blanks around it. It is then blank, a comment
//! (it starts with `;` or `#`), a section header (`[name]`), or an entry
//! (`key = value`, split at the first `=`, with a key that is not empty).
//! Anything else is malformed.

use crate::lines::{find_byte, position, position_found, position_is_first};
use vstd::prelude::*;

verus! {

/// Bytes that are skipped around names and values: space, tab and carriage
/// return.
pub open spec fn is_space(byte: u8) -> bool {
    byte == 0x20 || byte == 0x09 || byte == 0x0d
}

/// The index of the first byte that is no blank, or the length.
pub open spec fn text_start(bytes: Seq<u8>) -> nat
    decreases bytes.len(),
{
    if bytes.len() == 0 || !is_space(bytes[0]) {
        0
    } else {
        1 + text_start(bytes.skip(1))
    }
}

/// The index after the last byte that is no blank, or zero.
pub open spec fn text_end(bytes: Seq<u8>) -> nat
    decreases bytes.len(),
{
    if bytes.len() == 0 || !is_space(bytes.last()) {
        bytes.len()
    } else {
        text_end(bytes.drop_last())
    }
}

/// `bytes` without the blanks at its start and at its end.
pub open spec fn trimmed(bytes: Seq<u8>) -> Seq<u8> {
    if text_start(bytes) < text_end(bytes) {
        bytes.subrange(text_start(bytes) as int, text_end(bytes) as int)
    } else {
        Seq::empty()
    }
}

/// Not empty, and no blank at either end: what `trimmed` leaves of a line
/// that is not blank.
pub open spec fn is_word(bytes: Seq<u8>) -> bool {
    bytes.len() > 0 && !is_space(bytes[0]) && !is_space(bytes.last())
}

/// What a line of a settings file says.
pub enum Line {
    /// Nothing but blanks.
    Blank,
    /// A remark for the reader.
    Comment,
    /// The start of the section of that name.
    Section { name: Seq<u8> },
    /// A key of the current section and its value.
    Entry { key: Seq<u8>, value: Seq<u8> },
    /// None of these.
    Malformed,
}

/// `;`, which starts a comment.
pub const SEMICOLON: u8 = 0x3b;

/// `#`, which starts a comment too.
pub const HASH: u8 = 0x23;

/// `[`, which starts a section header.
pub const OPEN_BRACKET: u8 = 0x5b;

/// `]`, which ends a section header.
pub const CLOSE_BRACKET: u8 = 0x5d;

/// `=`, which parts a key from its value.
pub const EQUALS: u8 = 0x3d;

/// Reads a line.
pub open spec fn parse_line(line: Seq<u8>) -> Line {
    let text = trimmed(line);
    if text.len() == 0 {
        Line::Blank
    } else if text[0] == SEMICOLON || text[0] == HASH {
        Line::Comment
    } else if text[0] == OPEN_BRACKET {
        if text.len() >= 2 && text.last() == CLOSE_BRACKET {
            Line::Section { name: trimmed(text.subrange(1, text.len() - 1)) }
        } else {
            Line::Malformed
        }
    } else {
        let split = position(text, EQUALS) as int;
        if 0 < split < text.len() {
            Line::Entry { key: trimmed(text.take(split)), value: trimmed(text.skip(split + 1)) }
        } else {
            Line::Malformed
        }
    }
}

/// `text_start` is the first place that holds no blank.
pub proof fn text_start_is_first(bytes: Seq<u8>)
    ensures
        text_start(bytes) <= bytes.len(),
        forall|k: int| 0 <= k < text_start(bytes) ==> is_space(bytes[k]),
        text_start(bytes) < bytes.len() ==> !is_space(bytes[text_start(bytes) as int]),
    decreases bytes.len(),
{
    if bytes.len() == 0 || !is_space(bytes[0]) {
    } else {
        let rest = bytes.skip(1);
        text_start_is_first(rest);
        assert forall|k: int| 0 <= k < text_start(bytes) implies is_space(bytes[k]) by {
            if k > 0 {
                assert(bytes[k] == rest[k - 1]);
            }
        }
        if text_start(bytes) < bytes.len() {
            assert(bytes[text_start(bytes) as int] == rest[text_start(rest) as int]);
        }
    }
}

/// A place with only blanks before it, which is the end or holds no blank,
/// is the `text_start`.
pub proof fn text_start_found(bytes: Seq<u8>, at: int)
    requires
        0 <= at <= bytes.len(),
        forall|k: int| 0 <= k < at ==> is_space(bytes[k]),
        at < bytes.len() ==> !is_space(bytes[at]),
    ensures
        text_start(bytes) == at,
{
    text_start_is_first(bytes);
    let p = text_start(bytes) as int;
    if p < at {
        assert(is_space(bytes[p]));
    } else if at < p {
        assert(is_space(bytes[at]));
    }
}

/// `text_end` follows the last place that holds no blank.
pub proof fn text_end_is_last(bytes: Seq<u8>)
    ensures
        text_end(bytes) <= bytes.len(),
        forall|k: int| text_end(bytes) <= k < bytes.len() ==> is_space(bytes[k]),
        text_end(bytes) > 0 ==> !is_space(bytes[text_end(bytes) - 1]),
    decreases bytes.len(),
{
    if bytes.len() == 0 || !is_space(bytes.last()) {
    } else {
        let init = bytes.drop_last();
        text_end_is_last(init);
        assert forall|k: int| text_end(bytes) <= k < bytes.len() implies is_space(bytes[k]) by {
            if k < init.len() {
                assert(bytes[k] == init[k]);
            }
        }
        if text_end(bytes) > 0 {
            assert(bytes[text_end(bytes) - 1] == init[text_end(init) - 1]);
        }
    }
}

/// A place with only blanks from it on, which is the start or follows a byte
/// that is no blank, is the `text_end`.
pub proof fn text_end_found(bytes: Seq<u8>, at: int)
    requires
        0 <= at <= bytes.len(),
        forall|k: int| at <= k < bytes.len() ==> is_space(bytes[k]),
        at > 0 ==> !is_space(bytes[at - 1]),
    ensures
        text_end(bytes) == at,
{
    text_end_is_last(bytes);
    let p = text_end(bytes) as int;
    if p < at {
        assert(is_space(bytes[at - 1]));
    } else if at < p {
        assert(is_space(bytes[p - 1]));
    }
}

/// What `trimmed` leaves is empty or a word.
pub proof fn trimmed_is_word(bytes: Seq<u8>)
    ensures
        trimmed(bytes).len() == 0 || is_word(trimmed(bytes)),
        trimmed(bytes).len() == 0 <==> text_start(bytes) == bytes.len(),
        text_start(bytes) < bytes.len() ==> text_start(bytes) < text_end(bytes),
{
    text_start_is_first(bytes);
    text_end_is_last(bytes);
    let a = text_start(bytes) as int;
    let b = text_end(bytes) as int;
    if a < bytes.len() {
        if b <= a {
            assert(is_space(bytes[a]));
        }
    } else {
        if b > 0 {
            assert(is_space(bytes[b - 1]));
        }
    }
}

/// A word is left as it is.
pub proof fn trimmed_word(word: Seq<u8>)
    requires
        is_word(word),
    ensures
        trimmed(word) == word,
{
    text_start_found(word, 0);
    text_end_found(word, word.len() as int);
    assert(word.subrange(0, word.len() as int) =~= word);
}

/// Where the name of a section starts in its header line: after the `[` and
/// the blanks that follow it.
pub open spec fn name_start(line: Seq<u8>) -> int {
    let text = trimmed(line);
    text_start(line) as int + 1 + text_start(text.subrange(1, text.len() - 1))
}

/// Where the value of an entry starts in its line: after the `=` and the
/// blanks that follow it. The value ends where the text of the line ends.
pub open spec fn value_start(line: Seq<u8>) -> int {
    let text = trimmed(line);
    let split = position(text, EQUALS) as int;
    text_start(line) + split + 1 + text_start(text.skip(split + 1))
}

/// The line of an entry with `value` in place of its value, and every other
/// byte as it was.
pub open spec fn with_entry_value(line: Seq<u8>, value: Seq<u8>) -> Seq<u8> {
    line.take(value_start(line)) + value + line.skip(text_end(line) as int)
}

/// Where the parts of an entry stand in its line.
pub proof fn entry_layout(line: Seq<u8>)
    requires
        parse_line(line) is Entry,
    ensures
        text_start(line) < value_start(line) <= text_end(line) <= line.len(),
        parse_line(line)->value == line.subrange(value_start(line), text_end(line) as int),
        line[value_start(line) - 1] == EQUALS || is_space(line[value_start(line) - 1]),
{
    let a = text_start(line) as int;
    let b = text_end(line) as int;
    let text = trimmed(line);
    let split = position(text, EQUALS) as int;
    let after = text.skip(split + 1);
    trimmed_is_word(line);
    text_start_is_first(line);
    text_end_is_last(line);
    position_is_first(text, EQUALS);
    text_start_is_first(after);
    text_end_is_last(after);
    trimmed_is_word(after);
    let lead = text_start(after) as int;
    if after.len() > 0 {
        assert(after.last() == text.last());
        text_end_found(after, after.len() as int);
        assert(lead < after.len());
        assert(trimmed(after) =~= line.subrange(value_start(line), b));
        if lead > 0 {
            assert(after[lead - 1] == line[value_start(line) - 1]);
        } else {
            assert(text[split] == line[value_start(line) - 1]);
        }
    } else {
        assert(trimmed(after) =~= line.subrange(value_start(line), b));
        assert(text[split] == line[value_start(line) - 1]);
    }
}

/// An entry whose value was replaced by a word is an entry of the same key
/// with that word as its value.
pub proof fn entry_with_value(line: Seq<u8>, value: Seq<u8>)
    requires
        parse_line(line) is Entry,
        is_word(value),
    ensures
        parse_line(with_entry_value(line, value)) == (Line::Entry {
            key: parse_line(line)->key,
            value,
        }),
{
    let a = text_start(line) as int;
    let b = text_end(line) as int;
    let text = trimmed(line);
    let split = position(text, EQUALS) as int;
    let after = text.skip(split + 1);
    let lead = text_start(after) as int;
    let from = value_start(line);
    entry_layout(line);
    trimmed_is_word(line);
    text_start_is_first(line);
    text_end_is_last(line);
    position_is_first(text, EQUALS);
    text_start_is_first(after);

    let line2 = with_entry_value(line, value);
    let end2 = from + value.len();
    assert(line2.len() == end2 + (line.len() - b));
    assert forall|k: int| 0 <= k < from implies line2[k] == line[k] by {}
    assert forall|k: int| 0 <= k < value.len() implies line2[from + k] == value[k] by {}
    assert forall|k: int| end2 <= k < line2.len() implies is_space(line2[k]) by {
        assert(line2[k] == line[k - end2 + b]);
    }
    text_start_found(line2, a);
    assert(line2[end2 - 1] == value.last());
    text_end_found(line2, end2);
    let text2 = trimmed(line2);
    assert(text2 =~= line2.subrange(a, end2));
    assert(text2[0] == text[0]);
    assert forall|k: int| 0 <= k <= split implies text2[k] == text[k] by {}
    position_found(text2, EQUALS, split);
    assert(text2.take(split) =~= text.take(split));

    let after2 = text2.skip(split + 1);
    assert(after2.len() == lead + value.len());
    assert forall|k: int| 0 <= k < lead implies is_space(after2[k]) by {
        assert(after2[k] == after[k]);
    }
    assert(after2[lead] == value[0]);
    text_start_found(after2, lead);
    assert(after2.last() == value.last());
    text_end_found(after2, after2.len() as int);
    assert(trimmed(after2) =~= value);
}

/// Giving an entry the value that it has leaves the line as it is.
pub proof fn entry_with_its_value(line: Seq<u8>)
    requires
        parse_line(line) is Entry,
    ensures
        with_entry_value(line, parse_line(line)->value) == line,
{
    entry_layout(line);
    let from = value_start(line);
    let to = text_end(line) as int;
    assert(line.take(from) + line.subrange(from, to) + line.skip(to) =~= line);
}

/// A stretch of a line: the bytes from `from` up to `to`.
#[derive(Clone, Copy, Debug)]
pub struct Span {
    pub from: usize,
    pub to: usize,
}

impl Span {
    /// The bytes of `line` that the span covers.
    pub open spec fn of(self, line: Seq<u8>) -> Seq<u8> {
        line.subrange(self.from as int, self.to as int)
    }

    /// The span lies within `line`.
    pub open spec fn fits(self, line: Seq<u8>) -> bool {
        self.from <= self.to <= line.len()
    }
}

/// What a line says, with the places of its parts.
#[derive(Clone, Copy, Debug)]
pub enum Shape {
    /// Nothing but blanks.
    Blank,
    /// A remark for the reader.
    Comment,
    /// A section header, and where its name stands.
    Section { name: Span },
    /// An entry, and where its key and its value stand.
    Entry { key: Span, value: Span },
    /// None of these.
    Malformed,
}

impl Shape {
    /// The shape is that of `line`: it says what `parse_line` says, and its
    /// spans cover the name, the key and the value. The span of a value ends
    /// where the text of the line ends.
    pub open spec fn describes(self, line: Seq<u8>) -> bool {
        match parse_line(line) {
            Line::Blank => self is Blank,
            Line::Comment => self is Comment,
            Line::Malformed => self is Malformed,
            Line::Section { name } => {
                &&& self matches Shape::Section { name: span }
                &&& span.from == name_start(line)
                &&& span.fits(line)
                &&& span.of(line) == name
            },
            Line::Entry { key, value } => {
                &&& self matches Shape::Entry { key: key_span, value: value_span }
                &&& key_span.from == text_start(line)
                &&& key_span.fits(line)
                &&& key_span.of(line) == key
                &&& value_span.from == value_start(line)
                &&& value_span.to == text_end(line)
                &&& value_span.fits(line)
                &&& value_span.of(line) == value
            },
        }
    }
}

/// The first place from `from` on, before `to`, that holds no blank; `to`
/// where there is none.
pub fn skip_blanks(bytes: &[u8], from: usize, to: usize) -> (at: usize)
    requires
        from <= to <= bytes.len(),
    ensures
        at == from + text_start(bytes@.subrange(from as int, to as int)),
        from <= at <= to,
{
    let mut at: usize = from;
    while at < to && (bytes[at] == 0x20 || bytes[at] == 0x09 || bytes[at] == 0x0d)
        invariant
            from <= at <= to <= bytes.len(),
            forall|k: int| from <= k < at ==> is_space(bytes@[k]),
        decreases to - at,
    {
        at += 1;
    }
    proof {
        text_start_found(bytes@.subrange(from as int, to as int), at - from);
    }
    at
}

/// The place after the last byte before `to`, not before `from`, that is no
/// blank; `from` where there is none.
pub fn drop_blanks(bytes: &[u8], from: usize, to: usize) -> (at: usize)
    requires
        from <= to <= bytes.len(),
    ensures
        at == from + text_end(bytes@.subrange(from as int, to as int)),
        from <= at <= to,
{
    let mut at: usize = to;
    while at > from && (bytes[at - 1] == 0x20 || bytes[at - 1] == 0x09 || bytes[at - 1] == 0x0d)
        invariant
            from <= at <= to <= bytes.len(),
            forall|k: int| at <= k < to ==> is_space(bytes@[k]),
        decreases at,
    {
        at -= 1;
    }
    proof {
        text_end_found(bytes@.subrange(from as int, to as int), at - from);
    }
    at
}

/// The stretch between `from` and `to` without the blanks at its ends. Of a
/// stretch of blanks it is the empty span at `to`.
pub fn trim(bytes: &[u8], from: usize, to: usize) -> (span: Span)
    requires
        from <= to <= bytes.len(),
    ensures
        span.fits(bytes@),
        from <= span.from,
        span.to <= to,
        span.of(bytes@) == trimmed(bytes@.subrange(from as int, to as int)),
        span.from == from + text_start(bytes@.subrange(from as int, to as int)),
        span.from < span.to ==> span.to == from + text_end(
            bytes@.subrange(from as int, to as int),
        ),
{
    let start = skip_blanks(bytes, from, to);
    let end = drop_blanks(bytes, from, to);
    let ghost part = bytes@.subrange(from as int, to as int);
    proof {
        trimmed_is_word(part);
    }
    if start < end {
        assert(bytes@.subrange(start as int, end as int) =~= part.subrange(
            start - from,
            end - from,
        ));
        Span { from: start, to: end }
    } else {
        assert(bytes@.subrange(start as int, start as int) =~= Seq::<u8>::empty());
        Span { from: start, to: start }
    }
}

/// Reads a line whose text starts with `[`, between `a` and `b`.
fn read_header(line: &[u8], a: usize, b: usize) -> (shape: Shape)
    requires
        a == text_start(line@),
        b == text_end(line@),
        a < b <= line.len(),
        line@[a as int] == OPEN_BRACKET,
    ensures
        shape.describes(line@),
{
    let ghost text = trimmed(line@);
    assert(text[0] == line@[a as int]);
    assert(text.last() == line@[b - 1]);
    if b - a >= 2 && line[b - 1] == CLOSE_BRACKET {
        let name = trim(line, a + 1, b - 1);
        assert(line@.subrange(a + 1, b - 1) =~= text.subrange(1, text.len() - 1));
        assert(parse_line(line@) == (Line::Section { name: name.of(line@) }));
        Shape::Section { name }
    } else {
        assert(parse_line(line@) is Malformed);
        Shape::Malformed
    }
}

/// Reads a line whose text, between `a` and `b`, starts like neither a
/// comment nor a header.
fn read_entry(line: &[u8], a: usize, b: usize) -> (shape: Shape)
    requires
        a == text_start(line@),
        b == text_end(line@),
        a < b <= line.len(),
        line@[a as int] != OPEN_BRACKET,
        line@[a as int] != SEMICOLON,
        line@[a as int] != HASH,
    ensures
        shape.describes(line@),
{
    let ghost text = trimmed(line@);
    assert(text[0] == line@[a as int]);
    let found = find_byte(line, EQUALS, a);
    let ghost split = if found < b {
        found - a
    } else {
        b - a
    };
    proof {
        position_is_first(line@.skip(a as int), EQUALS);
        assert forall|k: int| 0 <= k < split implies text[k] != EQUALS by {
            assert(text[k] == line@.skip(a as int)[k]);
        }
        if found < b {
            assert(text[found - a] == line@.skip(a as int)[found - a]);
        }
        position_found(text, EQUALS, split);
    }
    if found > a && found < b {
        proof {
            let before = line@.subrange(a as int, found as int);
            assert(before[0] == line@[a as int]);
            text_start_is_first(line@);
            text_start_found(before, 0);
        }
        let key = trim(line, a, found);
        let value = trim(line, found + 1, b);
        proof {
            assert(line@.subrange(a as int, found as int) =~= text.take(split));
            assert(line@.subrange(found + 1, b as int) =~= text.skip(split + 1));
            assert(parse_line(line@) == (Line::Entry {
                key: key.of(line@),
                value: trimmed(text.skip(split + 1)),
            }));
            entry_layout(line@);
        }
        Shape::Entry { key, value: Span { from: value.from, to: b } }
    } else {
        assert(parse_line(line@) is Malformed);
        Shape::Malformed
    }
}

/// Reads a line.
pub fn read_line(line: &[u8]) -> (shape: Shape)
    ensures
        shape.describes(line@),
{
    let whole = trim(line, 0, line.len());
    proof {
        assert(line@.subrange(0, line@.len() as int) =~= line@);
        trimmed_is_word(line@);
    }
    if whole.from >= whole.to {
        return Shape::Blank;
    }
    let a = whole.from;
    let b = whole.to;
    assert(trimmed(line@)[0] == line@[a as int]);
    let first = line[a];
    if first == SEMICOLON || first == HASH {
        Shape::Comment
    } else if first == OPEN_BRACKET {
        read_header(line, a, b)
    } else {
        read_entry(line, a, b)
    }
}

} // verus!
