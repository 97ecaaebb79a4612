//! The mod loader's registration file: one `Name : flag` entry per line.
//!
//! Enabling the blueprint mod loader turns its entry from flag `0` to flag `1`
//! wherever the entry stands in the file, and touches nothing else.

use crate::text::{occurrence_shifts, occurs, occurs_at, replace_all, replaced};
use vstd::prelude::*;
use vstd::string::*;

verus! {

/// The entry of the blueprint mod loader while it is switched off.
pub open spec fn disabled_entry() -> Seq<u8> {
    "BPModLoaderMod : 0".spec_bytes()
}

/// The entry of the blueprint mod loader once it is switched on.
pub open spec fn enabled_entry() -> Seq<u8> {
    "BPModLoaderMod : 1".spec_bytes()
}

/// Whether the byte at `at` is the flag of a switched-off entry.
pub open spec fn is_disabled_flag(content: Seq<u8>, at: int) -> bool {
    occurs_at(content, disabled_entry(), at - 17)
}

/// The file with the flag of every switched-off entry set to `1`.
pub open spec fn enabled(content: Seq<u8>) -> Seq<u8> {
    Seq::new(
        content.len(),
        |at: int|
            if is_disabled_flag(content, at) {
                0x31u8
            } else {
                content[at]
            },
    )
}

/// What the two entries hold: eighteen bytes each, equal but for the flag in
/// the last place, and with the first byte in no other place.
pub proof fn entries_known()
    ensures
        disabled_entry().len() == 18,
        enabled_entry().len() == 18,
        disabled_entry()[17] == 0x30u8,
        enabled_entry()[17] == 0x31u8,
        forall|k: int| 0 <= k < 17 ==> #[trigger] disabled_entry()[k] == enabled_entry()[k],
        forall|k: int| 0 < k < 18 ==> #[trigger] disabled_entry()[k] != 0x42u8,
        disabled_entry()[0] == 0x42u8,
        forall|k: int| 0 <= k < 17 ==> #[trigger] disabled_entry()[k] != 0x31u8,
{
    reveal_strlit("BPModLoaderMod : 0");
    reveal_strlit("BPModLoaderMod : 1");
    broadcast use vstd::string::group_string_axioms;

    assert(is_ascii("BPModLoaderMod : 0"));
    assert(is_ascii("BPModLoaderMod : 1"));
}

/// Switches the blueprint mod loader on in the bytes of the registration file.
pub fn enable_logicmods(content: &[u8]) -> (out: Vec<u8>)
    ensures
        out@ == enabled(content@),
        out@ == replaced(content@, disabled_entry(), enabled_entry()),
{
    proof {
        entries_known();
        enabling_is_replacing(content@);
    }
    replace_all(content, "BPModLoaderMod : 0".as_bytes(), "BPModLoaderMod : 1".as_bytes())
}

/// Setting the flags place by place gives what replacing the entry from the
/// left gives: no entry overlaps another.
pub proof fn enabling_is_replacing(content: Seq<u8>)
    ensures
        replaced(content, disabled_entry(), enabled_entry()) == enabled(content),
    decreases content.len(),
{
    entries_known();
    let from = disabled_entry();
    let to = enabled_entry();
    if content.len() < 18 {
        assert(enabled(content) =~= content);
    } else if occurs_at(content, from, 0) {
        let rest = content.skip(18);
        enabling_is_replacing(rest);
        assert(content.subrange(0, 18) == from);
        assert forall|at: int| 0 <= at < content.len() implies (to + enabled(rest))[at]
            == enabled(content)[at] by {
            if at < 18 {
                assert(content[at] == content.subrange(0, 18)[at]);
                if at < 17 {
                    assert(!is_disabled_flag(content, at));
                }
            } else {
                let start = at - 17;
                if start < 18 {
                    // An entry that began inside the first one would put its
                    // first byte where the first entry has another.
                    if occurs_at(content, from, start) {
                        assert(content.subrange(start, start + 18)[0] == from[0]);
                        assert(content[start] == content.subrange(0, 18)[start]);
                    }
                    assert(!is_disabled_flag(content, at));
                    assert(!is_disabled_flag(rest, at - 18));
                } else {
                    occurrence_shifts(content, from, 18, start - 18);
                }
            }
        }
        assert(to + enabled(rest) =~= enabled(content));
    } else {
        let rest = content.skip(1);
        enabling_is_replacing(rest);
        assert forall|at: int| 0 <= at < content.len() implies (seq![content[0]] + enabled(
            rest,
        ))[at] == enabled(content)[at] by {
            if at >= 1 {
                let start = at - 17;
                if start >= 1 {
                    occurrence_shifts(content, from, 1, start - 1);
                }
            }
        }
        assert(seq![content[0]] + enabled(rest) =~= enabled(content));
    }
}

/// A file that holds no switched-off entry is left byte for byte as it is.
pub proof fn enabling_without_entry(content: Seq<u8>)
    requires
        !occurs(content, disabled_entry()),
    ensures
        enabled(content) == content,
{
    assert forall|at: int| 0 <= at < content.len() implies enabled(content)[at]
        == content[at] by {
        assert(!occurs_at(content, disabled_entry(), at - 17));
    }
    assert(enabled(content) =~= content);
}

/// Where a switched-off entry stood, the switched-on entry stands afterwards.
pub proof fn enabling_turns_each_entry(content: Seq<u8>, at: int)
    requires
        occurs_at(content, disabled_entry(), at),
    ensures
        occurs_at(enabled(content), enabled_entry(), at),
{
    entries_known();
    let from = disabled_entry();
    let out = enabled(content);
    assert forall|k: int| 0 <= k < 18 implies out[at + k] == enabled_entry()[k] by {
        assert(content[at + k] == content.subrange(at, at + 18)[k]);
        if k < 17 {
            let start = at + k - 17;
            if occurs_at(content, from, start) {
                // The earlier entry would hold the first byte of this one in
                // a later place of its own.
                assert(content[at] == content.subrange(start, start + 18)[at - start]);
                assert(content[at] == content.subrange(at, at + 18)[0]);
            }
            assert(!is_disabled_flag(content, at + k));
        }
    }
    assert(out.subrange(at, at + 18) =~= enabled_entry());
}

/// No switched-off entry is left in the result.
pub proof fn enabling_leaves_none_disabled(content: Seq<u8>)
    ensures
        !occurs(enabled(content), disabled_entry()),
{
    entries_known();
    let from = disabled_entry();
    let out = enabled(content);
    assert forall|at: int| !occurs_at(out, from, at) by {
        if occurs_at(out, from, at) {
            assert forall|k: int| 0 <= k < 18 implies content[at + k] == from[k] by {
                assert(out[at + k] == out.subrange(at, at + 18)[k]);
            }
            assert(content.subrange(at, at + 18) =~= from);
            assert(is_disabled_flag(content, at + 17));
            assert(out[at + 17] == out.subrange(at, at + 18)[17]);
        }
    }
}

/// Enabling a second time changes nothing.
pub proof fn enabling_twice(content: Seq<u8>)
    ensures
        enabled(enabled(content)) == enabled(content),
{
    enabling_leaves_none_disabled(content);
    enabling_without_entry(enabled(content));
}

/// A file that holds the switched-off entry once comes out with the flag of
/// that entry set, and is byte for byte the same everywhere else.
pub proof fn enabling_one_entry(content: Seq<u8>, at: int)
    requires
        occurs_at(content, disabled_entry(), at),
        forall|other: int| other != at ==> !occurs_at(content, disabled_entry(), other),
    ensures
        enabled(content) == content.update(at + 17, 0x31u8),
        occurs_at(enabled(content), enabled_entry(), at),
{
    entries_known();
    enabling_turns_each_entry(content, at);
    assert forall|k: int| 0 <= k < content.len() implies enabled(content)[k] == content.update(
        at + 17,
        0x31u8,
    )[k] by {
        if k != at + 17 {
            assert(!occurs_at(content, disabled_entry(), k - 17));
        }
    }
    assert(enabled(content) =~= content.update(at + 17, 0x31u8));
}

} // verus!
