//! A text file as its lines.
//!
//! A text of `n` line feeds has `n + 1` lines, the last of which is empty
//! when the text ends in a line feed. Joining the lines with line feeds gives
//! the text back, byte for byte.

use vstd::prelude::*;

verus! {

/// The byte that ends a line.
pub const LINE_FEED: u8 = 0x0a;

/// The index of the first `byte` in `bytes`, or the length where there is none.
pub open spec fn position(bytes: Seq<u8>, byte: u8) -> nat
    decreases bytes.len(),
{
    if bytes.len() == 0 || bytes[0] == byte {
        0
    } else {
        1 + position(bytes.skip(1), byte)
    }
}

/// No line feed stands in `line`.
pub open spec fn is_line(line: Seq<u8>) -> bool {
    forall|k: int| 0 <= k < line.len() ==> line[k] != LINE_FEED
}

/// Every member of `lines` is free of line feeds.
pub open spec fn are_lines(lines: Seq<Seq<u8>>) -> bool {
    forall|i: int| 0 <= i < lines.len() ==> is_line(#[trigger] lines[i])
}

/// The lines of `text`: what stands before its first line feed, then the
/// lines of what follows it.
pub open spec fn lines(text: Seq<u8>) -> Seq<Seq<u8>>
    decreases text.len(),
{
    let cut = position(text, LINE_FEED) as int;
    if cut >= text.len() {
        seq![text]
    } else {
        seq![text.take(cut)] + lines(text.skip(cut + 1))
    }
}

/// The text whose lines are `lines`: the lines with a line feed between each
/// two of them.
pub open spec fn joined(lines: Seq<Seq<u8>>) -> Seq<u8>
    decreases lines.len(),
{
    if lines.len() == 0 {
        Seq::empty()
    } else if lines.len() == 1 {
        lines[0]
    } else {
        lines[0] + seq![LINE_FEED] + joined(lines.skip(1))
    }
}

/// The contents of a vector of lines.
pub open spec fn line_views(lines: Seq<Vec<u8>>) -> Seq<Seq<u8>> {
    Seq::new(lines.len(), |i: int| lines[i]@)
}

/// `position` is the first place that holds the byte.
pub proof fn position_is_first(bytes: Seq<u8>, byte: u8)
    ensures
        position(bytes, byte) <= bytes.len(),
        forall|k: int| 0 <= k < position(bytes, byte) ==> bytes[k] != byte,
        position(bytes, byte) < bytes.len() ==> bytes[position(bytes, byte) as int] == byte,
    decreases bytes.len(),
{
    if bytes.len() == 0 || bytes[0] == byte {
    } else {
        let rest = bytes.skip(1);
        position_is_first(rest, byte);
        assert forall|k: int| 0 <= k < position(bytes, byte) implies bytes[k] != byte by {
            if k > 0 {
                assert(bytes[k] == rest[k - 1]);
            }
        }
        if position(bytes, byte) < bytes.len() {
            assert(bytes[position(bytes, byte) as int] == rest[position(rest, byte) as int]);
        }
    }
}

/// A place that holds the byte, or the end, with no such byte before it, is
/// the `position`.
pub proof fn position_found(bytes: Seq<u8>, byte: u8, at: int)
    requires
        0 <= at <= bytes.len(),
        forall|k: int| 0 <= k < at ==> bytes[k] != byte,
        at < bytes.len() ==> bytes[at] == byte,
    ensures
        position(bytes, byte) == at,
{
    position_is_first(bytes, byte);
    let p = position(bytes, byte) as int;
    if p < at {
        assert(bytes[p] != byte);
    } else if at < p {
        assert(bytes[at] != byte);
    }
}

/// A text has at least one line, and no line holds a line feed.
pub proof fn lines_are_lines(text: Seq<u8>)
    ensures
        lines(text).len() >= 1,
        are_lines(lines(text)),
    decreases text.len(),
{
    position_is_first(text, LINE_FEED);
    let cut = position(text, LINE_FEED) as int;
    if cut >= text.len() {
    } else {
        let rest = text.skip(cut + 1);
        lines_are_lines(rest);
        assert forall|i: int| 0 <= i < lines(text).len() implies is_line(
            #[trigger] lines(text)[i],
        ) by {
            if i > 0 {
                assert(lines(text)[i] == lines(rest)[i - 1]);
            }
        }
    }
}

/// Joining the lines of a text gives the text.
pub proof fn joined_lines(text: Seq<u8>)
    ensures
        joined(lines(text)) == text,
    decreases text.len(),
{
    position_is_first(text, LINE_FEED);
    let cut = position(text, LINE_FEED) as int;
    if cut >= text.len() {
    } else {
        let rest = text.skip(cut + 1);
        joined_lines(rest);
        lines_are_lines(rest);
        assert(lines(text).skip(1) =~= lines(rest));
        assert(text.take(cut) + seq![LINE_FEED] + rest =~= text);
    }
}

/// The lines of joined lines are those lines.
pub proof fn lines_of_joined(parts: Seq<Seq<u8>>)
    requires
        parts.len() >= 1,
        are_lines(parts),
    ensures
        lines(joined(parts)) == parts,
    decreases parts.len(),
{
    let first = parts[0];
    assert(is_line(first));
    if parts.len() == 1 {
        position_found(first, LINE_FEED, first.len() as int);
        assert(seq![first] =~= parts);
    } else {
        let rest = parts.skip(1);
        assert forall|i: int| 0 <= i < rest.len() implies is_line(#[trigger] rest[i]) by {
            assert(rest[i] == parts[i + 1]);
        }
        lines_of_joined(rest);
        let text = joined(parts);
        position_found(text, LINE_FEED, first.len() as int);
        assert(text.take(first.len() as int) =~= first);
        assert(text.skip(first.len() as int + 1) =~= joined(rest));
        assert(seq![first] + rest =~= parts);
    }
}

/// Joining with one more line at the end.
pub proof fn joined_push(parts: Seq<Seq<u8>>, last: Seq<u8>)
    ensures
        joined(parts.push(last)) == if parts.len() == 0 {
            last
        } else {
            joined(parts) + seq![LINE_FEED] + last
        },
    decreases parts.len(),
{
    let all = parts.push(last);
    if parts.len() == 0 {
    } else {
        assert(all.skip(1) =~= parts.skip(1).push(last));
        joined_push(parts.skip(1), last);
        if parts.len() == 1 {
            assert(parts.skip(1).len() == 0);
        } else {
            assert(joined(all) =~= joined(parts) + seq![LINE_FEED] + last);
        }
    }
}

/// The index of the first `byte` in `bytes` at or after `from`, or the length.
pub fn find_byte(bytes: &[u8], byte: u8, from: usize) -> (at: usize)
    requires
        from <= bytes.len(),
    ensures
        at == from + position(bytes@.skip(from as int), byte),
        from <= at <= bytes.len(),
{
    let mut at: usize = from;
    while at < bytes.len() && bytes[at] != byte
        invariant
            from <= at <= bytes.len(),
            forall|k: int| from <= k < at ==> bytes@[k] != byte,
        decreases bytes.len() - at,
    {
        at += 1;
    }
    proof {
        position_found(bytes@.skip(from as int), byte, at - from);
    }
    at
}

/// A copy of the bytes from `from` up to `to`.
pub fn copy_range(bytes: &[u8], from: usize, to: usize) -> (out: Vec<u8>)
    requires
        from <= to <= bytes.len(),
    ensures
        out@ == bytes@.subrange(from as int, to as int),
{
    let mut out: Vec<u8> = Vec::new();
    let mut k: usize = from;
    while k < to
        invariant
            from <= k <= to <= bytes.len(),
            out@ == bytes@.subrange(from as int, k as int),
        decreases to - k,
    {
        out.push(bytes[k]);
        k += 1;
        assert(out@ =~= bytes@.subrange(from as int, k as int));
    }
    out
}

/// Splits a text into its lines.
pub fn split_lines(text: &[u8]) -> (parts: Vec<Vec<u8>>)
    ensures
        line_views(parts@) == lines(text@),
{
    let mut parts: Vec<Vec<u8>> = Vec::new();
    let mut start: usize = 0;
    assert(text@.skip(0) =~= text@);
    loop
        invariant
            start <= text.len(),
            line_views(parts@) + lines(text@.skip(start as int)) == lines(text@),
        decreases text.len() - start,
    {
        let ghost rest = text@.skip(start as int);
        let ghost before = line_views(parts@);
        let cut = find_byte(text, LINE_FEED, start);
        parts.push(copy_range(text, start, cut));
        proof {
            assert(text@.subrange(start as int, cut as int) =~= rest.take(cut - start));
            assert(line_views(parts@) =~= before.push(rest.take(cut - start)));
        }
        if cut >= text.len() {
            proof {
                assert(rest.take(cut - start) =~= rest);
                assert(before.push(rest) =~= before + seq![rest]);
            }
            return parts;
        }
        proof {
            assert(rest.skip(cut - start + 1) =~= text@.skip(cut + 1));
            assert(before.push(rest.take(cut - start)) + lines(text@.skip(cut + 1)) =~= before
                + (seq![rest.take(cut - start)] + lines(rest.skip(cut - start + 1))));
        }
        start = cut + 1;
    }
}

/// Joins lines into a text.
pub fn join_lines(parts: &Vec<Vec<u8>>) -> (text: Vec<u8>)
    ensures
        text@ == joined(line_views(parts@)),
{
    let mut text: Vec<u8> = Vec::new();
    let mut i: usize = 0;
    while i < parts.len()
        invariant
            i <= parts.len(),
            text@ == joined(line_views(parts@).take(i as int)),
        decreases parts.len() - i,
    {
        let ghost done = line_views(parts@).take(i as int);
        proof {
            joined_push(done, parts@[i as int]@);
            assert(done.push(parts@[i as int]@) =~= line_views(parts@).take(i + 1));
        }
        if i > 0 {
            text.push(LINE_FEED);
        }
        text.extend_from_slice(parts[i].as_slice());
        i += 1;
    }
    assert(line_views(parts@).take(i as int) =~= line_views(parts@));
    text
}

} // verus!
