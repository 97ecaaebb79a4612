//! Changing one value of a settings file.
//!
//! The file is split into lines, the lines are read as a document, the key
//! is set, and the lines are joined again. Every byte that is not part of
//! the value that changes, or of a line that is added, stays as it was.

use crate::document::{
    entry_line, has_entry, header_index_found, header_line, holds, is_header, is_key, is_name,
    malformed_index, malformed_index_found, section_at, sections, setting_a_value,
    setting_keeps_form, setting_keeps_sections, setting_twice, settings, well_formed,
    with_value,
};
use crate::error::Error;
use crate::lines::{
    copy_range, is_line, join_lines, joined, line_views, lines, lines_are_lines, lines_of_joined,
    split_lines,
};
use crate::syntax::{
    is_word, parse_line, read_line, with_entry_value, Shape, Span, CLOSE_BRACKET, EQUALS,
    OPEN_BRACKET,
};
use crate::text::matches_at;
use vstd::prelude::*;
use vstd::string::*;

verus! {

/// Whether the stretch `span` of `line` holds exactly `name`.
fn same_bytes(line: &[u8], span: Span, name: &[u8]) -> (same: bool)
    requires
        span.fits(line@),
    ensures
        same == (span.of(line@) == name@),
{
    if span.to - span.from != name.len() {
        return false;
    }
    matches_at(line, name, span.from)
}

/// The line with `value` in place of the stretch `span`.
fn with_span_replaced(line: &[u8], span: Span, value: &[u8]) -> (out: Vec<u8>)
    requires
        span.fits(line@),
    ensures
        out@ == line@.take(span.from as int) + value@ + line@.skip(span.to as int),
{
    let mut out = copy_range(line, 0, span.from);
    out.extend_from_slice(value);
    let tail = copy_range(line, span.to, line.len());
    out.extend_from_slice(tail.as_slice());
    out
}

/// The header line of `section`.
fn make_header_line(section: &[u8]) -> (out: Vec<u8>)
    ensures
        out@ == header_line(section@),
{
    let mut out: Vec<u8> = Vec::new();
    out.push(OPEN_BRACKET);
    out.extend_from_slice(section);
    out.push(CLOSE_BRACKET);
    out
}

/// The line of a new entry.
fn make_entry_line(key: &[u8], value: &[u8]) -> (out: Vec<u8>)
    ensures
        out@ == entry_line(key@, value@),
{
    let mut out: Vec<u8> = Vec::new();
    out.extend_from_slice(key);
    out.push(0x20);
    out.push(EQUALS);
    out.push(0x20);
    out.extend_from_slice(value);
    assert(out@ =~= entry_line(key@, value@));
    out
}

/// Sets `key` of `section` to `value` in the bytes of a settings file.
///
/// A file with a malformed line is refused, with the number of the first
/// such line.
pub(crate) fn set_value(content: &[u8], section: &[u8], key: &[u8], value: &[u8]) -> (result:
    Result<Vec<u8>, Error>)
    requires
        is_name(section@),
        is_key(key@),
        is_word(value@),
        is_line(value@),
    ensures
        match result {
            Ok(out) => {
                &&& well_formed(lines(content@))
                &&& out@ == joined(with_value(lines(content@), section@, key@, value@))
            },
            Err(error) => {
                &&& !well_formed(lines(content@))
                &&& error matches Error::Ini(number)
                &&& number == malformed_index(lines(content@), 0) + 1
            },
        },
{
    let parts = split_lines(content);
    let ghost doc = lines(content@);
    let mut out: Vec<Vec<u8>> = Vec::new();
    let mut in_section = false;
    let mut found = false;
    let mut header: Option<usize> = None;
    let mut i: usize = 0;
    while i < parts.len()
        invariant
            i <= parts.len(),
            doc == line_views(parts@),
            doc == lines(content@),
            is_name(section@),
            forall|j: int| 0 <= j < i ==> !(#[trigger] parse_line(doc[j]) is Malformed),
            in_section == (section_at(doc, i as int) == section@),
            found ==> exists|j: int| 0 <= j < i && holds(doc, j, section@, key@),
            !found ==> forall|j: int| 0 <= j < i ==> !holds(doc, j, section@, key@),
            match header {
                Some(h) => h < i && is_header(doc, h as int, section@) && forall|j: int|
                    0 <= j < h ==> !is_header(doc, j, section@),
                None => forall|j: int| 0 <= j < i ==> !is_header(doc, j, section@),
            },
            out.len() == i,
            forall|j: int|
                0 <= j < i ==> (#[trigger] out@[j])@ == if holds(doc, j, section@, key@) {
                    with_entry_value(doc[j], value@)
                } else {
                    doc[j]
                },
        decreases parts.len() - i,
    {
        let line = parts[i].as_slice();
        assert(line@ == doc[i as int]);
        let shape = read_line(line);
        let ghost old_out = out@;
        let ghost seen = if found {
            choose|j: int| 0 <= j < i && holds(doc, j, section@, key@)
        } else {
            i as int
        };
        match shape {
            Shape::Malformed => {
                proof {
                    assert(parse_line(doc[i as int]) is Malformed);
                    malformed_index_found(doc, 0, i as int);
                }
                return Err(Error::Ini(i + 1));
            },
            Shape::Section { name } => {
                let same = same_bytes(line, name, section);
                if same && header.is_none() {
                    header = Some(i);
                }
                in_section = same;
                out.push(copy_range(line, 0, line.len()));
            },
            Shape::Entry { key: key_span, value: value_span } => {
                if in_section && same_bytes(line, key_span, key) {
                    found = true;
                    assert(holds(doc, i as int, section@, key@));
                    out.push(with_span_replaced(line, value_span, value));
                } else {
                    out.push(copy_range(line, 0, line.len()));
                }
            },
            _ => {
                out.push(copy_range(line, 0, line.len()));
            },
        }
        proof {
            assert(line@.subrange(0, line@.len() as int) =~= line@);
            assert(found ==> holds(doc, seen, section@, key@));
            assert forall|j: int| 0 <= j < i + 1 implies (#[trigger] out@[j])@ == if holds(
                doc,
                j,
                section@,
                key@,
            ) {
                with_entry_value(doc[j], value@)
            } else {
                doc[j]
            } by {
                if j < i {
                    assert(out@[j] == old_out[j]);
                }
            }
        }
        i += 1;
    }
    let ghost rewritten = line_views(out@);
    proof {
        lines_are_lines(content@);
        setting_keeps_form(doc, section@, key@, value@);
        assert(well_formed(doc));
    }
    if found {
        proof {
            assert(has_entry(doc, section@, key@));
            assert(rewritten =~= with_value(doc, section@, key@, value@));
        }
    } else {
        proof {
            assert(!has_entry(doc, section@, key@));
            assert(rewritten =~= doc);
        }
        match header {
            Some(h) => {
                proof {
                    header_index_found(doc, section@, 0, h as int);
                }
                out.insert(h + 1, make_entry_line(key, value));
                proof {
                    assert(line_views(out@) =~= with_value(doc, section@, key@, value@));
                }
            },
            None => {
                proof {
                    header_index_found(doc, section@, 0, doc.len() as int);
                }
                let n = out.len();
                let at = if n > 0 && out[n - 1].len() == 0 {
                    n - 1
                } else {
                    n
                };
                out.insert(at, make_header_line(section));
                assert(out.len() == n + 1);
                out.insert(at + 1, make_entry_line(key, value));
                proof {
                    assert(line_views(out@) =~= with_value(doc, section@, key@, value@));
                }
            },
        }
    }
    Ok(join_lines(&out))
}

/// The section that holds the switches of the debugging aids.
pub open spec fn debug_section() -> Seq<u8> {
    "Debug".spec_bytes()
}

/// The key that says whether the runtime opens its console.
pub open spec fn console_key() -> Seq<u8> {
    "ConsoleEnabled".spec_bytes()
}

/// The value that switches a feature on.
pub open spec fn switched_on() -> Seq<u8> {
    "1".spec_bytes()
}

/// The file can be read as a document: none of its lines is malformed.
pub open spec fn readable(content: Seq<u8>) -> bool {
    well_formed(lines(content))
}

/// The document that the file holds.
pub open spec fn settings_of(content: Seq<u8>) -> Map<(Seq<u8>, Seq<u8>), Seq<u8>> {
    settings(lines(content))
}

/// The file with the console switched on.
pub open spec fn console_enabled(content: Seq<u8>) -> Seq<u8> {
    joined(with_value(lines(content), debug_section(), console_key(), switched_on()))
}

/// The section, the key and the value are such as a file can hold.
pub proof fn names_known()
    ensures
        is_name(debug_section()),
        is_key(console_key()),
        is_word(switched_on()),
        is_line(switched_on()),
{
    reveal_strlit("Debug");
    reveal_strlit("ConsoleEnabled");
    reveal_strlit("1");
    broadcast use vstd::string::group_string_axioms;

    assert(is_ascii("Debug"));
    assert(is_ascii("ConsoleEnabled"));
    assert(is_ascii("1"));
}

/// Switches the console on in the bytes of the settings file.
///
/// A file with a malformed line is refused, with the number of its first
/// malformed line, counted from one.
pub fn enable_console(content: &[u8]) -> (result: Result<Vec<u8>, Error>)
    ensures
        match result {
            Ok(out) => readable(content@) && out@ == console_enabled(content@),
            Err(error) => {
                &&& !readable(content@)
                &&& error matches Error::Ini(number)
                &&& number == malformed_index(lines(content@), 0) + 1
            },
        },
{
    proof {
        names_known();
    }
    set_value(content, "Debug".as_bytes(), "ConsoleEnabled".as_bytes(), "1".as_bytes())
}

/// After the console was switched on, its key reads `1` in the section of
/// the debugging aids, every other key of every section reads what it read
/// before, and a file that was readable still is.
pub proof fn console_enabled_sets_key(content: Seq<u8>)
    ensures
        settings_of(console_enabled(content)) == settings_of(content).insert(
            (debug_section(), console_key()),
            switched_on(),
        ),
        readable(content) ==> readable(console_enabled(content)),
{
    names_known();
    let doc = lines(content);
    let out = with_value(doc, debug_section(), console_key(), switched_on());
    lines_are_lines(content);
    setting_keeps_form(doc, debug_section(), console_key(), switched_on());
    lines_of_joined(out);
    setting_a_value(doc, debug_section(), console_key(), switched_on());
}

/// Switching the console on a second time changes no byte of the file.
pub proof fn console_enabled_twice(content: Seq<u8>)
    ensures
        console_enabled(console_enabled(content)) == console_enabled(content),
{
    names_known();
    let doc = lines(content);
    let out = with_value(doc, debug_section(), console_key(), switched_on());
    lines_are_lines(content);
    setting_keeps_form(doc, debug_section(), console_key(), switched_on());
    lines_of_joined(out);
    setting_twice(doc, debug_section(), console_key(), switched_on());
}

/// The names of the sections that the file has headers for.
pub open spec fn sections_of(content: Seq<u8>) -> Set<Seq<u8>> {
    sections(lines(content))
}

/// Switching the console on keeps every section of the file, and adds the
/// section of the debugging aids where the file had no header for it.
pub proof fn console_enabled_keeps_sections(content: Seq<u8>)
    ensures
        sections_of(console_enabled(content)) == sections_of(content).insert(debug_section()),
{
    names_known();
    let doc = lines(content);
    let out = with_value(doc, debug_section(), console_key(), switched_on());
    lines_are_lines(content);
    setting_keeps_form(doc, debug_section(), console_key(), switched_on());
    lines_of_joined(out);
    setting_keeps_sections(doc, debug_section(), console_key(), switched_on());
}

/// In a file that has the key of the console in the section of the
/// debugging aids, switching the console on changes the value in each line
/// of that key and leaves every other line byte for byte as it was.
pub proof fn console_enabled_changes_values_only(content: Seq<u8>)
    requires
        has_entry(lines(content), debug_section(), console_key()),
    ensures
        lines(console_enabled(content)).len() == lines(content).len(),
        forall|i: int|
            0 <= i < lines(content).len() ==> #[trigger] lines(console_enabled(content))[i]
                == if holds(lines(content), i, debug_section(), console_key()) {
                with_entry_value(lines(content)[i], switched_on())
            } else {
                lines(content)[i]
            },
{
    names_known();
    let doc = lines(content);
    let out = with_value(doc, debug_section(), console_key(), switched_on());
    lines_are_lines(content);
    setting_keeps_form(doc, debug_section(), console_key(), switched_on());
    lines_of_joined(out);
}

} // verus!
