//! Literal substitution in the bytes of a text file.

use vstd::prelude::*;

verus! {

/// `pattern` stands in `text` at offset `at`.
pub open spec fn occurs_at(text: Seq<u8>, pattern: Seq<u8>, at: int) -> bool {
    &&& 0 <= at
    &&& at + pattern.len() <= text.len()
    &&& text.subrange(at, at + pattern.len()) == pattern
}

/// `pattern` stands somewhere in `text`.
pub open spec fn occurs(text: Seq<u8>, pattern: Seq<u8>) -> bool {
    exists|at: int| occurs_at(text, pattern, at)
}

/// `text` with every occurrence of `from` replaced by `to`, reading from the
/// left and resuming after each occurrence, so that occurrences which overlap
/// an earlier one are not replaced. With an empty `from` nothing is replaced.
pub open spec fn replaced(text: Seq<u8>, from: Seq<u8>, to: Seq<u8>) -> Seq<u8>
    decreases text.len(),
{
    if from.len() == 0 || text.len() < from.len() {
        text
    } else if occurs_at(text, from, 0) {
        to + replaced(text.skip(from.len() as int), from, to)
    } else {
        seq![text[0]] + replaced(text.skip(1), from, to)
    }
}

/// Whether `pattern` stands in `text` at offset `at`.
pub fn matches_at(text: &[u8], pattern: &[u8], at: usize) -> (found: bool)
    ensures
        found == occurs_at(text@, pattern@, at as int),
{
    if at > text.len() || pattern.len() > text.len() - at {
        return false;
    }
    let mut k: usize = 0;
    while k < pattern.len()
        invariant
            k <= pattern.len(),
            at + pattern.len() <= text.len(),
            forall|j: int| 0 <= j < k ==> text@[at + j] == pattern@[j],
        decreases pattern.len() - k,
    {
        if text[at + k] != pattern[k] {
            proof {
                let window = text@.subrange(at as int, at + pattern.len());
                assert(window[k as int] == text@[at + k]);
            }
            return false;
        }
        k += 1;
    }
    assert(text@.subrange(at as int, at + pattern.len()) =~= pattern@);
    true
}

/// Replaces every occurrence of `from` in `text` by `to`.
pub fn replace_all(text: &[u8], from: &[u8], to: &[u8]) -> (out: Vec<u8>)
    ensures
        out@ == replaced(text@, from@, to@),
{
    let mut out: Vec<u8> = Vec::new();
    if from.len() == 0 {
        out.extend_from_slice(text);
        return out;
    }
    let mut at: usize = 0;
    assert(text@.skip(0) =~= text@);
    while at < text.len()
        invariant
            at <= text.len(),
            from@.len() > 0,
            out@ + replaced(text@.skip(at as int), from@, to@) == replaced(text@, from@, to@),
        decreases text.len() - at,
    {
        let ghost rest = text@.skip(at as int);
        let ghost before = out@;
        if matches_at(text, from, at) {
            proof {
                assert(rest.subrange(0, from@.len() as int) =~= text@.subrange(
                    at as int,
                    at + from@.len(),
                ));
                assert(rest.skip(from@.len() as int) =~= text@.skip(at + from@.len()));
            }
            out.extend_from_slice(to);
            at += from.len();
            proof {
                assert(out@ + replaced(text@.skip(at as int), from@, to@) =~= before + (to@
                    + replaced(rest.skip(from@.len() as int), from@, to@)));
            }
        } else {
            proof {
                if rest.len() >= from@.len() {
                    assert(rest.subrange(0, from@.len() as int) =~= text@.subrange(
                        at as int,
                        at + from@.len(),
                    ));
                }
                assert(rest.skip(1) =~= text@.skip(at + 1));
                assert(rest[0] == text@[at as int]);
            }
            out.push(text[at]);
            at += 1;
            proof {
                assert(rest =~= seq![rest[0]] + rest.skip(1));
                assert(out@ + replaced(text@.skip(at as int), from@, to@) =~= before + (
                seq![rest[0]] + replaced(rest.skip(1), from@, to@)));
            }
        }
    }
    proof {
        assert(text@.skip(at as int) =~= Seq::<u8>::empty());
        assert(out@ + Seq::<u8>::empty() =~= out@);
    }
    out
}

/// An occurrence in a text without its first `k` bytes is an occurrence in
/// the whole text, `k` places further on.
pub proof fn occurrence_shifts(text: Seq<u8>, pattern: Seq<u8>, k: int, at: int)
    requires
        0 <= k <= text.len(),
        0 <= at,
    ensures
        occurs_at(text.skip(k), pattern, at) <==> occurs_at(text, pattern, at + k),
{
    if at + pattern.len() <= text.len() - k {
        assert(text.skip(k).subrange(at, at + pattern.len()) =~= text.subrange(
            at + k,
            at + k + pattern.len(),
        ));
    }
}

/// A text in which the pattern does not occur is left as it is.
pub proof fn replaced_without_occurrence(text: Seq<u8>, from: Seq<u8>, to: Seq<u8>)
    requires
        !occurs(text, from),
    ensures
        replaced(text, from, to) == text,
    decreases text.len(),
{
    if from.len() == 0 || text.len() < from.len() {
    } else {
        assert(!occurs_at(text, from, 0));
        let rest = text.skip(1);
        assert forall|at: int| !occurs_at(rest, from, at) by {
            if 0 <= at {
                occurrence_shifts(text, from, 1, at);
                assert(!occurs_at(text, from, at + 1));
            }
        }
        replaced_without_occurrence(rest, from, to);
        assert(seq![text[0]] + rest =~= text);
    }
}

} // verus!
