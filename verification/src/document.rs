//! A settings file as a key/value document.
//!
//! The lines of the file are read one by one. A section header opens a
//! section, and an entry belongs to the section opened last (to the section
//! with the empty name before the first header). The document is the map from
//! section and key to value; where a key stands twice in a section, its first
//! entry counts.

use crate::lines::{are_lines, is_line, position_found};
use crate::syntax::{
    entry_layout, entry_with_its_value, entry_with_value, is_word, parse_line, text_end_found,
    text_start_found, trimmed, trimmed_word, with_entry_value, Line, CLOSE_BRACKET, EQUALS, HASH,
    OPEN_BRACKET, SEMICOLON,
};
use vstd::prelude::*;

verus! {

/// No line is malformed.
pub open spec fn well_formed(doc: Seq<Seq<u8>>) -> bool {
    forall|i: int| 0 <= i < doc.len() ==> !(#[trigger] parse_line(doc[i]) is Malformed)
}

/// The index of the first malformed line at or after `from`, or the number
/// of lines where there is none.
pub open spec fn malformed_index(doc: Seq<Seq<u8>>, from: int) -> int
    decreases doc.len() - from,
{
    if from >= doc.len() {
        doc.len() as int
    } else if parse_line(doc[from]) is Malformed {
        from
    } else {
        malformed_index(doc, from + 1)
    }
}

/// The name of the section that line `i` stands in: that of the last header
/// before it.
pub open spec fn section_at(doc: Seq<Seq<u8>>, i: int) -> Seq<u8>
    decreases i,
{
    if i <= 0 || i > doc.len() {
        Seq::empty()
    } else {
        match parse_line(doc[i - 1]) {
            Line::Section { name } => name,
            _ => section_at(doc, i - 1),
        }
    }
}

/// Line `i` is an entry of `key` in `section`.
pub open spec fn holds(doc: Seq<Seq<u8>>, i: int, section: Seq<u8>, key: Seq<u8>) -> bool {
    &&& 0 <= i < doc.len()
    &&& parse_line(doc[i]) is Entry
    &&& parse_line(doc[i])->key == key
    &&& section_at(doc, i) == section
}

/// Line `i` is a header of `section`.
pub open spec fn is_header(doc: Seq<Seq<u8>>, i: int, section: Seq<u8>) -> bool {
    &&& 0 <= i < doc.len()
    &&& parse_line(doc[i]) == (Line::Section { name: section })
}

/// Some line is an entry of `key` in `section`.
pub open spec fn has_entry(doc: Seq<Seq<u8>>, section: Seq<u8>, key: Seq<u8>) -> bool {
    exists|i: int| holds(doc, i, section, key)
}

/// The index of the first header of `section` at or after `from`, or the
/// number of lines where there is none.
pub open spec fn header_index(doc: Seq<Seq<u8>>, section: Seq<u8>, from: int) -> int
    decreases doc.len() - from,
{
    if from >= doc.len() {
        doc.len() as int
    } else if is_header(doc, from, section) {
        from
    } else {
        header_index(doc, section, from + 1)
    }
}

/// What the lines from `i` on add to the document.
pub open spec fn settings_from(doc: Seq<Seq<u8>>, i: int) -> Map<(Seq<u8>, Seq<u8>), Seq<u8>>
    decreases doc.len() - i,
{
    if i < 0 || i >= doc.len() {
        Map::empty()
    } else {
        let later = settings_from(doc, i + 1);
        match parse_line(doc[i]) {
            Line::Entry { key, value } => later.insert((section_at(doc, i), key), value),
            _ => later,
        }
    }
}

/// The document: the value of each key of each section.
pub open spec fn settings(doc: Seq<Seq<u8>>) -> Map<(Seq<u8>, Seq<u8>), Seq<u8>> {
    settings_from(doc, 0)
}

/// A name that a section can have: a word on one line.
pub open spec fn is_name(name: Seq<u8>) -> bool {
    is_word(name) && is_line(name)
}

/// A key that an entry can have: a word on one line without `=`, which does
/// not start like a comment or a header.
pub open spec fn is_key(key: Seq<u8>) -> bool {
    &&& is_word(key)
    &&& is_line(key)
    &&& key[0] != SEMICOLON
    &&& key[0] != HASH
    &&& key[0] != OPEN_BRACKET
    &&& forall|k: int| 0 <= k < key.len() ==> key[k] != EQUALS
}

/// The header line of `section`.
pub open spec fn header_line(section: Seq<u8>) -> Seq<u8> {
    seq![OPEN_BRACKET] + section + seq![CLOSE_BRACKET]
}

/// The line of a new entry.
pub open spec fn entry_line(key: Seq<u8>, value: Seq<u8>) -> Seq<u8> {
    key + seq![0x20u8, EQUALS, 0x20u8] + value
}

/// Where a new section goes: at the end, before a last line that is empty.
pub open spec fn append_index(doc: Seq<Seq<u8>>) -> int {
    if doc.len() > 0 && doc.last().len() == 0 {
        doc.len() - 1
    } else {
        doc.len() as int
    }
}

/// The lines with `key` of `section` set to `value`.
///
/// Where the key has entries in the section, each of them gets the value in
/// place of its own, and no other byte changes. Where the section has a
/// header but not the key, a new entry follows its first header. Otherwise a
/// header and the entry are added at the end.
pub open spec fn with_value(
    doc: Seq<Seq<u8>>,
    section: Seq<u8>,
    key: Seq<u8>,
    value: Seq<u8>,
) -> Seq<Seq<u8>> {
    if has_entry(doc, section, key) {
        Seq::new(
            doc.len(),
            |i: int|
                if holds(doc, i, section, key) {
                    with_entry_value(doc[i], value)
                } else {
                    doc[i]
                },
        )
    } else if header_index(doc, section, 0) < doc.len() {
        let at = header_index(doc, section, 0) + 1;
        doc.take(at) + seq![entry_line(key, value)] + doc.skip(at)
    } else {
        let at = append_index(doc);
        doc.take(at) + seq![header_line(section), entry_line(key, value)] + doc.skip(at)
    }
}

/// The header line of a name reads as the header of that name.
pub proof fn header_line_parses(section: Seq<u8>)
    requires
        is_word(section),
    ensures
        parse_line(header_line(section)) == (Line::Section { name: section }),
{
    let line = header_line(section);
    trimmed_word(line);
    assert(line.subrange(1, line.len() - 1) =~= section);
    trimmed_word(section);
}

/// The line of a new entry reads as an entry of its key and value.
pub proof fn entry_line_parses(key: Seq<u8>, value: Seq<u8>)
    requires
        is_key(key),
        is_word(value),
    ensures
        parse_line(entry_line(key, value)) == (Line::Entry { key, value }),
{
    let line = entry_line(key, value);
    let split = key.len() as int + 1;
    trimmed_word(line);
    assert forall|k: int| 0 <= k < split implies line[k] != EQUALS by {}
    position_found(line, EQUALS, split);
    let before = line.take(split);
    assert(before =~= key.push(0x20u8));
    text_start_found(before, 0);
    text_end_found(before, key.len() as int);
    assert(trimmed(before) =~= key);
    let after = line.skip(split + 1);
    assert(after =~= seq![0x20u8] + value);
    text_start_found(after, 1);
    text_end_found(after, after.len() as int);
    assert(trimmed(after) =~= value);
}

/// `other` has the headers of `doc` in the same lines, and entries of the
/// same keys in the same lines.
pub open spec fn same_frame(doc: Seq<Seq<u8>>, other: Seq<Seq<u8>>) -> bool {
    &&& other.len() == doc.len()
    &&& forall|i: int|
        0 <= i < doc.len() ==> match #[trigger] parse_line(doc[i]) {
            Line::Entry { key, value } => parse_line(other[i]) is Entry && parse_line(
                other[i],
            )->key == key,
            shape => parse_line(other[i]) == shape,
        }
}

/// Lines of the same frame stand in the same sections.
pub proof fn same_frame_same_sections(doc: Seq<Seq<u8>>, other: Seq<Seq<u8>>, i: int)
    requires
        same_frame(doc, other),
    ensures
        section_at(other, i) == section_at(doc, i),
    decreases i,
{
    if 0 < i <= doc.len() {
        same_frame_same_sections(doc, other, i - 1);
    }
}

/// An entry at or after line `i` gives its key a value from `i` on.
pub proof fn entry_is_set(doc: Seq<Seq<u8>>, i: int, at: int, section: Seq<u8>, key: Seq<u8>)
    requires
        0 <= i <= at,
        holds(doc, at, section, key),
    ensures
        settings_from(doc, i).contains_key((section, key)),
    decreases at - i,
{
    if i < at {
        entry_is_set(doc, i + 1, at, section, key);
    }
}

/// A key that has a value from line `i` on has an entry at or after `i`.
pub proof fn set_by_entry(doc: Seq<Seq<u8>>, i: int, section: Seq<u8>, key: Seq<u8>) -> (at: int)
    requires
        settings_from(doc, i).contains_key((section, key)),
    ensures
        i <= at,
        holds(doc, at, section, key),
    decreases doc.len() - i,
{
    if i < 0 || i >= doc.len() {
        i
    } else if holds(doc, i, section, key) {
        i
    } else {
        set_by_entry(doc, i + 1, section, key)
    }
}

/// Giving every entry of a key the same value sets the key wherever it was
/// set, and nothing else.
proof fn values_replaced(
    doc: Seq<Seq<u8>>,
    out: Seq<Seq<u8>>,
    section: Seq<u8>,
    key: Seq<u8>,
    value: Seq<u8>,
    i: int,
)
    requires
        same_frame(doc, out),
        0 <= i,
        forall|j: int|
            0 <= j < doc.len() && #[trigger] parse_line(doc[j]) is Entry ==> parse_line(
                out[j],
            )->value == if holds(doc, j, section, key) {
                value
            } else {
                parse_line(doc[j])->value
            },
    ensures
        settings_from(out, i) == if settings_from(doc, i).contains_key((section, key)) {
            settings_from(doc, i).insert((section, key), value)
        } else {
            settings_from(doc, i)
        },
    decreases doc.len() - i,
{
    if i >= doc.len() {
    } else {
        values_replaced(doc, out, section, key, value, i + 1);
        same_frame_same_sections(doc, out, i);
        let shape = parse_line(doc[i]);
        let expected = if settings_from(doc, i).contains_key((section, key)) {
            settings_from(doc, i).insert((section, key), value)
        } else {
            settings_from(doc, i)
        };
        assert(settings_from(out, i) =~= expected);
    }
}

/// `header_index` is the first header of the section at or after `from`.
pub proof fn header_index_is_first(doc: Seq<Seq<u8>>, section: Seq<u8>, from: int)
    requires
        0 <= from,
    ensures
        from <= header_index(doc, section, from) || header_index(doc, section, from) == doc.len(),
        header_index(doc, section, from) <= doc.len(),
        header_index(doc, section, from) < doc.len() ==> is_header(
            doc,
            header_index(doc, section, from),
            section,
        ),
        forall|j: int| from <= j < header_index(doc, section, from) ==> !is_header(doc, j, section),
    decreases doc.len() - from,
{
    if from >= doc.len() {
    } else if is_header(doc, from, section) {
    } else {
        header_index_is_first(doc, section, from + 1);
    }
}

/// Lines that stand before the first difference stand in the same sections.
proof fn prefix_sections(doc: Seq<Seq<u8>>, out: Seq<Seq<u8>>, upto: int, i: int)
    requires
        0 <= upto <= doc.len(),
        upto <= out.len(),
        forall|j: int| 0 <= j < upto ==> out[j] == doc[j],
        i <= upto,
    ensures
        section_at(out, i) == section_at(doc, i),
    decreases i,
{
    if i > 0 {
        prefix_sections(doc, out, upto, i - 1);
    }
}

/// Where the lines from `upto` on add one value for a key that has no entry,
/// and the lines before are the same, the whole adds that one value.
proof fn prefix_keeps_new_value(
    doc: Seq<Seq<u8>>,
    out: Seq<Seq<u8>>,
    section: Seq<u8>,
    key: Seq<u8>,
    value: Seq<u8>,
    upto: int,
    i: int,
)
    requires
        0 <= i <= upto <= doc.len(),
        upto <= out.len(),
        forall|j: int| 0 <= j < upto ==> out[j] == doc[j],
        !has_entry(doc, section, key),
        settings_from(out, upto) == settings_from(doc, upto).insert((section, key), value),
    ensures
        settings_from(out, i) == settings_from(doc, i).insert((section, key), value),
    decreases upto - i,
{
    if i < upto {
        prefix_keeps_new_value(doc, out, section, key, value, upto, i + 1);
        prefix_sections(doc, out, upto, i);
        assert(!holds(doc, i, section, key));
        assert(settings_from(out, i) =~= settings_from(doc, i).insert((section, key), value));
    }
}

/// After one more entry line the lines stand as they stood, one place on.
proof fn shifted_by_entry(doc: Seq<Seq<u8>>, out: Seq<Seq<u8>>, at: int, i: int)
    requires
        0 <= at <= i <= doc.len(),
        out.len() == doc.len() + 1,
        forall|j: int| 0 <= j < at ==> out[j] == doc[j],
        parse_line(out[at]) is Entry,
        forall|j: int| at <= j < doc.len() ==> out[j + 1] == doc[j],
    ensures
        section_at(out, i + 1) == section_at(doc, i),
    decreases i - at,
{
    if i == at {
        prefix_sections(doc, out, at, at);
    } else {
        shifted_by_entry(doc, out, at, i - 1);
    }
}

/// After one more entry line the later lines add what they added.
proof fn shifted_settings(doc: Seq<Seq<u8>>, out: Seq<Seq<u8>>, at: int, i: int)
    requires
        0 <= at <= i,
        at <= doc.len(),
        out.len() == doc.len() + 1,
        forall|j: int| 0 <= j < at ==> out[j] == doc[j],
        parse_line(out[at]) is Entry,
        forall|j: int| at <= j < doc.len() ==> out[j + 1] == doc[j],
    ensures
        settings_from(out, i + 1) == settings_from(doc, i),
    decreases doc.len() - i,
{
    if i < doc.len() {
        shifted_settings(doc, out, at, i + 1);
        shifted_by_entry(doc, out, at, i);
    }
}

/// Blank lines add nothing.
proof fn blank_lines_add_nothing(doc: Seq<Seq<u8>>, i: int)
    requires
        0 <= i,
        forall|j: int| i <= j < doc.len() ==> #[trigger] parse_line(doc[j]) is Blank,
    ensures
        settings_from(doc, i) == Map::<(Seq<u8>, Seq<u8>), Seq<u8>>::empty(),
    decreases doc.len() - i,
{
    if i < doc.len() {
        blank_lines_add_nothing(doc, i + 1);
    }
}

/// Setting a key gives it the value in the document and changes no other
/// key of any section.
pub proof fn setting_a_value(doc: Seq<Seq<u8>>, section: Seq<u8>, key: Seq<u8>, value: Seq<u8>)
    requires
        is_name(section),
        is_key(key),
        is_word(value),
    ensures
        settings(with_value(doc, section, key, value)) == settings(doc).insert(
            (section, key),
            value,
        ),
{
    let out = with_value(doc, section, key, value);
    let target = (section, key);
    if has_entry(doc, section, key) {
        let at = choose|i: int| holds(doc, i, section, key);
        assert forall|i: int| 0 <= i < doc.len() implies match #[trigger] parse_line(doc[i]) {
            Line::Entry { key: k, value: v } => parse_line(out[i]) is Entry && parse_line(
                out[i],
            )->key == k && parse_line(out[i])->value == if holds(doc, i, section, key) {
                value
            } else {
                v
            },
            shape => parse_line(out[i]) == shape,
        } by {
            if holds(doc, i, section, key) {
                entry_with_value(doc[i], value);
            }
        }
        assert(same_frame(doc, out));
        values_replaced(doc, out, section, key, value, 0);
        entry_is_set(doc, 0, at, section, key);
    } else if header_index(doc, section, 0) < doc.len() {
        header_index_is_first(doc, section, 0);
        let at = header_index(doc, section, 0) + 1;
        entry_line_parses(key, value);
        shifted_settings(doc, out, at, at);
        prefix_sections(doc, out, at, at);
        assert(section_at(out, at) == section);
        assert(settings_from(out, at) == settings_from(doc, at).insert(target, value));
        prefix_keeps_new_value(doc, out, section, key, value, at, 0);
    } else {
        let at = append_index(doc);
        entry_line_parses(key, value);
        header_line_parses(section);
        assert forall|j: int| at <= j < doc.len() implies #[trigger] parse_line(doc[j]) is Blank by {
            assert(doc[j].len() == 0);
            assert(trimmed(doc[j]).len() == 0);
        }
        assert forall|j: int| at + 2 <= j < out.len() implies #[trigger] parse_line(
            out[j],
        ) is Blank by {
            assert(out[j] == doc[j - 2]);
            assert(parse_line(doc[j - 2]) is Blank);
        }
        blank_lines_add_nothing(doc, at);
        blank_lines_add_nothing(out, at + 2);
        assert(section_at(out, at + 1) == section);
        assert(settings_from(out, at + 1) =~= Map::<(Seq<u8>, Seq<u8>), Seq<u8>>::empty().insert(
            target,
            value,
        ));
        assert(settings_from(out, at) == settings_from(out, at + 1));
        prefix_keeps_new_value(doc, out, section, key, value, at, 0);
    }
}

/// An entry on one line stays on one line when a value on one line takes
/// the place of its value.
proof fn entry_with_value_is_line(line: Seq<u8>, value: Seq<u8>)
    requires
        parse_line(line) is Entry,
        is_line(line),
        is_line(value),
    ensures
        is_line(with_entry_value(line, value)),
{
    entry_layout(line);
}

/// Setting a key leaves a document without malformed lines without them.
proof fn setting_keeps_lines_well_formed(
    doc: Seq<Seq<u8>>,
    section: Seq<u8>,
    key: Seq<u8>,
    value: Seq<u8>,
)
    requires
        is_name(section),
        is_key(key),
        is_word(value),
        well_formed(doc),
    ensures
        well_formed(with_value(doc, section, key, value)),
{
    let out = with_value(doc, section, key, value);
    entry_line_parses(key, value);
    header_line_parses(section);
    header_index_is_first(doc, section, 0);
    if has_entry(doc, section, key) {
        assert forall|i: int| 0 <= i < out.len() implies !(#[trigger] parse_line(
            out[i],
        ) is Malformed) by {
            if holds(doc, i, section, key) {
                entry_with_value(doc[i], value);
            } else {
                assert(!(parse_line(doc[i]) is Malformed));
            }
        }
    } else {
        let added = out.len() - doc.len();
        let cut = if header_index(doc, section, 0) < doc.len() {
            header_index(doc, section, 0) + 1
        } else {
            append_index(doc)
        };
        assert forall|i: int| 0 <= i < out.len() implies !(#[trigger] parse_line(
            out[i],
        ) is Malformed) by {
            if i < cut {
                assert(!(parse_line(doc[i]) is Malformed));
            } else if i >= cut + added {
                assert(!(parse_line(doc[i - added]) is Malformed));
            }
        }
    }
}

/// Setting a key leaves every line on one line.
proof fn setting_keeps_lines_apart(
    doc: Seq<Seq<u8>>,
    section: Seq<u8>,
    key: Seq<u8>,
    value: Seq<u8>,
)
    requires
        is_name(section),
        is_key(key),
        is_line(value),
        are_lines(doc),
    ensures
        are_lines(with_value(doc, section, key, value)),
{
    let out = with_value(doc, section, key, value);
    assert(is_line(entry_line(key, value)));
    assert(is_line(header_line(section)));
    header_index_is_first(doc, section, 0);
    if has_entry(doc, section, key) {
        assert forall|i: int| 0 <= i < out.len() implies is_line(#[trigger] out[i]) by {
            assert(is_line(doc[i]));
            if holds(doc, i, section, key) {
                entry_with_value_is_line(doc[i], value);
            }
        }
    } else {
        let added = out.len() - doc.len();
        let cut = if header_index(doc, section, 0) < doc.len() {
            header_index(doc, section, 0) + 1
        } else {
            append_index(doc)
        };
        assert forall|i: int| 0 <= i < out.len() implies is_line(#[trigger] out[i]) by {
            if i < cut {
                assert(out[i] == doc[i]);
            } else if i >= cut + added {
                assert(out[i] == doc[i - added]);
            } else if i == cut + added - 1 {
                assert(out[i] == entry_line(key, value));
            } else {
                assert(out[i] == header_line(section));
            }
        }
    }
}

/// Setting a key leaves a document of well-formed lines well-formed, and
/// leaves every line on one line.
pub proof fn setting_keeps_form(doc: Seq<Seq<u8>>, section: Seq<u8>, key: Seq<u8>, value: Seq<u8>)
    requires
        is_name(section),
        is_key(key),
        is_word(value),
        is_line(value),
    ensures
        well_formed(doc) ==> well_formed(with_value(doc, section, key, value)),
        are_lines(doc) ==> are_lines(with_value(doc, section, key, value)),
        with_value(doc, section, key, value).len() >= 1,
{
    if well_formed(doc) {
        setting_keeps_lines_well_formed(doc, section, key, value);
    }
    if are_lines(doc) {
        setting_keeps_lines_apart(doc, section, key, value);
    }
}

/// A malformed line with none before it is at the `malformed_index`.
pub proof fn malformed_index_found(doc: Seq<Seq<u8>>, from: int, at: int)
    requires
        0 <= from <= at <= doc.len(),
        forall|j: int| from <= j < at ==> !(#[trigger] parse_line(doc[j]) is Malformed),
        at < doc.len() ==> parse_line(doc[at]) is Malformed,
    ensures
        malformed_index(doc, from) == at,
    decreases at - from,
{
    if from < at {
        assert(!(parse_line(doc[from]) is Malformed));
        malformed_index_found(doc, from + 1, at);
    }
}

/// A header of the section with none before it is at the `header_index`.
pub proof fn header_index_found(doc: Seq<Seq<u8>>, section: Seq<u8>, from: int, at: int)
    requires
        0 <= from <= at <= doc.len(),
        forall|j: int| from <= j < at ==> !is_header(doc, j, section),
        at < doc.len() ==> is_header(doc, at, section),
    ensures
        header_index(doc, section, from) == at,
    decreases at - from,
{
    if from < at {
        header_index_found(doc, section, from + 1, at);
    }
}

/// The names of the sections that have a header.
pub open spec fn sections(doc: Seq<Seq<u8>>) -> Set<Seq<u8>> {
    Set::new(|name: Seq<u8>| exists|i: int| is_header(doc, i, name))
}

/// A line that stands in a section with a name stands after a header of it.
pub proof fn section_has_header(doc: Seq<Seq<u8>>, i: int) -> (at: int)
    requires
        section_at(doc, i).len() > 0,
    ensures
        0 <= at < i,
        is_header(doc, at, section_at(doc, i)),
    decreases i,
{
    if i <= 0 || i > doc.len() {
        0
    } else {
        match parse_line(doc[i - 1]) {
            Line::Section { name } => i - 1,
            _ => section_has_header(doc, i - 1),
        }
    }
}

/// Setting a key keeps every section, and adds the section of the key where
/// it had no header.
pub proof fn setting_keeps_sections(
    doc: Seq<Seq<u8>>,
    section: Seq<u8>,
    key: Seq<u8>,
    value: Seq<u8>,
)
    requires
        is_name(section),
        is_key(key),
        is_word(value),
    ensures
        sections(with_value(doc, section, key, value)) == sections(doc).insert(section),
{
    let out = with_value(doc, section, key, value);
    entry_line_parses(key, value);
    header_line_parses(section);
    header_index_is_first(doc, section, 0);
    let added = out.len() - doc.len();
    let cut = if has_entry(doc, section, key) {
        doc.len() as int
    } else if header_index(doc, section, 0) < doc.len() {
        header_index(doc, section, 0) + 1
    } else {
        append_index(doc)
    };
    // Each line of `doc` is a line of the result, with the same header or none.
    assert forall|i: int, name: Seq<u8>| is_header(doc, i, name) implies is_header(
        out,
        if i < cut {
            i
        } else {
            i + added
        },
        name,
    ) by {
        assert(!holds(doc, i, section, key));
    }
    assert forall|j: int, name: Seq<u8>| is_header(out, j, name) implies name == section
        || is_header(
        doc,
        if j < cut {
            j
        } else {
            j - added
        },
        name,
    ) by {
        if has_entry(doc, section, key) {
            if holds(doc, j, section, key) {
                entry_with_value(doc[j], value);
            }
        } else if cut <= j < cut + added {
            if added == 1 {
                assert(out[j] == entry_line(key, value));
            } else if j == cut {
                assert(out[j] == header_line(section));
            } else {
                assert(out[j] == entry_line(key, value));
            }
        }
    }
    // The section of the key has a header in the result.
    if has_entry(doc, section, key) {
        let at = choose|i: int| holds(doc, i, section, key);
        let header = section_has_header(doc, at);
        assert(is_header(out, header, section));
    } else if header_index(doc, section, 0) < doc.len() {
        assert(is_header(out, header_index(doc, section, 0), section));
    } else {
        assert(is_header(out, cut, section));
    }
    assert forall|name: Seq<u8>| sections(out).contains(name) <==> sections(doc).insert(
        section,
    ).contains(name) by {
        if sections(doc).contains(name) {
            let i = choose|i: int| is_header(doc, i, name);
            assert(is_header(out, if i < cut {
                i
            } else {
                i + added
            }, name));
        }
        if sections(out).contains(name) && name != section {
            let j = choose|j: int| is_header(out, j, name);
            assert(is_header(doc, if j < cut {
                j
            } else {
                j - added
            }, name));
        }
    }
    assert(sections(out) =~= sections(doc).insert(section));
}

/// Every entry of the key in the section holds the value, and there is one.
pub open spec fn is_set(doc: Seq<Seq<u8>>, section: Seq<u8>, key: Seq<u8>, value: Seq<u8>) -> bool {
    &&& has_entry(doc, section, key)
    &&& forall|i: int|
        holds(doc, i, section, key) ==> parse_line(#[trigger] doc[i])->value == value
}

/// Where the entries of a key got the value, the key is set.
proof fn rewritten_is_set(
    doc: Seq<Seq<u8>>,
    out: Seq<Seq<u8>>,
    section: Seq<u8>,
    key: Seq<u8>,
    value: Seq<u8>,
)
    requires
        is_word(value),
        has_entry(doc, section, key),
        out.len() == doc.len(),
        forall|i: int|
            0 <= i < doc.len() ==> #[trigger] out[i] == if holds(doc, i, section, key) {
                with_entry_value(doc[i], value)
            } else {
                doc[i]
            },
    ensures
        is_set(out, section, key, value),
{
    let at = choose|i: int| holds(doc, i, section, key);
    assert forall|i: int| 0 <= i < doc.len() implies match #[trigger] parse_line(doc[i]) {
        Line::Entry { key: k, value: v } => parse_line(out[i]) is Entry && parse_line(
            out[i],
        )->key == k,
        shape => parse_line(out[i]) == shape,
    } by {
        assert(out[i] == if holds(doc, i, section, key) {
            with_entry_value(doc[i], value)
        } else {
            doc[i]
        });
        if holds(doc, i, section, key) {
            entry_with_value(doc[i], value);
        }
    }
    assert(same_frame(doc, out));
    assert forall|i: int| holds(out, i, section, key) implies parse_line(
        #[trigger] out[i],
    )->value == value by {
        same_frame_same_sections(doc, out, i);
        assert(parse_line(doc[i]) is Entry);
        assert(holds(doc, i, section, key));
        entry_with_value(doc[i], value);
    }
    same_frame_same_sections(doc, out, at);
    assert(out[at] == with_entry_value(doc[at], value));
    entry_with_value(doc[at], value);
    assert(holds(out, at, section, key));
}

/// Where a new entry follows a header of the section, and the key had no
/// entry, the key is set.
proof fn inserted_is_set(
    doc: Seq<Seq<u8>>,
    out: Seq<Seq<u8>>,
    section: Seq<u8>,
    key: Seq<u8>,
    value: Seq<u8>,
    at: int,
)
    requires
        !has_entry(doc, section, key),
        0 < at <= doc.len(),
        is_header(doc, at - 1, section),
        out.len() == doc.len() + 1,
        forall|j: int| 0 <= j < at ==> out[j] == doc[j],
        parse_line(out[at]) == (Line::Entry { key, value }),
        forall|j: int| at <= j < doc.len() ==> out[j + 1] == doc[j],
    ensures
        is_set(out, section, key, value),
{
    prefix_sections(doc, out, at, at);
    assert(holds(out, at, section, key));
    assert forall|i: int| holds(out, i, section, key) implies parse_line(
        #[trigger] out[i],
    )->value == value by {
        if i < at {
            prefix_sections(doc, out, at, i);
            assert(holds(doc, i, section, key));
        } else if i > at {
            shifted_by_entry(doc, out, at, i - 1);
            assert(out[i] == doc[i - 1]);
            assert(holds(doc, i - 1, section, key));
        }
    }
}

/// Where a header of the section and a new entry stand at the end, before
/// empty lines only, and the key had no entry, the key is set.
proof fn appended_is_set(
    doc: Seq<Seq<u8>>,
    out: Seq<Seq<u8>>,
    section: Seq<u8>,
    key: Seq<u8>,
    value: Seq<u8>,
    at: int,
)
    requires
        !has_entry(doc, section, key),
        0 <= at <= doc.len(),
        out.len() == doc.len() + 2,
        forall|j: int| 0 <= j < at ==> out[j] == doc[j],
        parse_line(out[at]) == (Line::Section { name: section }),
        parse_line(out[at + 1]) == (Line::Entry { key, value }),
        forall|j: int| at + 2 <= j < out.len() ==> #[trigger] out[j].len() == 0,
    ensures
        is_set(out, section, key, value),
{
    assert(holds(out, at + 1, section, key));
    assert forall|i: int| holds(out, i, section, key) implies parse_line(
        #[trigger] out[i],
    )->value == value by {
        if i < at {
            prefix_sections(doc, out, at, i);
            assert(holds(doc, i, section, key));
        } else if i > at + 1 {
            assert(out[i].len() == 0);
            assert(trimmed(out[i]).len() == 0);
        }
    }
}

/// After a key was set, every entry of it in its section holds the value,
/// and there is such an entry.
pub proof fn set_entries_hold_value(
    doc: Seq<Seq<u8>>,
    section: Seq<u8>,
    key: Seq<u8>,
    value: Seq<u8>,
)
    requires
        is_name(section),
        is_key(key),
        is_word(value),
    ensures
        is_set(with_value(doc, section, key, value), section, key, value),
{
    let out = with_value(doc, section, key, value);
    if has_entry(doc, section, key) {
        rewritten_is_set(doc, out, section, key, value);
    } else if header_index(doc, section, 0) < doc.len() {
        header_index_is_first(doc, section, 0);
        entry_line_parses(key, value);
        inserted_is_set(doc, out, section, key, value, header_index(doc, section, 0) + 1);
    } else {
        entry_line_parses(key, value);
        header_line_parses(section);
        let at = append_index(doc);
        assert(out[at] == header_line(section));
        assert(out[at + 1] == entry_line(key, value));
        assert forall|j: int| at + 2 <= j < out.len() implies #[trigger] out[j].len() == 0 by {
            assert(out[j] == doc[j - 2]);
        }
        appended_is_set(doc, out, section, key, value, at);
    }
}

/// Setting a key a second time to the same value changes no byte.
pub proof fn setting_twice(doc: Seq<Seq<u8>>, section: Seq<u8>, key: Seq<u8>, value: Seq<u8>)
    requires
        is_name(section),
        is_key(key),
        is_word(value),
    ensures
        with_value(with_value(doc, section, key, value), section, key, value) == with_value(
            doc,
            section,
            key,
            value,
        ),
{
    let once = with_value(doc, section, key, value);
    let twice = with_value(once, section, key, value);
    set_entries_hold_value(doc, section, key, value);
    assert forall|i: int| 0 <= i < once.len() implies twice[i] == once[i] by {
        if holds(once, i, section, key) {
            entry_with_its_value(once[i]);
        }
    }
    assert(twice =~= once);
}

} // verus!
