//! The multi-pattern search structure and what one scan of it yields.
//!
//! The searcher itself comes from the `aho_corasick` crate; this module
//! declares it, names the pattern list it was built from, and states over
//! that name what a single left-to-right, non-overlapping scan reports.

use vstd::prelude::*;

verus! {

/// One occurrence reported by the searcher: which pattern matched, and the
/// byte range `[start, end)` it covers.
#[derive(Clone, Copy, PartialEq, Eq, Structural, Debug)]
pub struct PatMatch {
    pub pattern: usize,
    pub start: usize,
    pub end: usize,
}

/// The bytes `pat` occur in `hay` starting at offset `i`.
pub open spec fn occurs_at(hay: Seq<u8>, pat: Seq<u8>, i: int) -> bool {
    &&& 0 <= i
    &&& i + pat.len() <= hay.len()
    &&& hay.subrange(i, i + pat.len()) == pat
}

/// Some pattern of `pats` occurs somewhere in `hay`.
pub open spec fn some_occurrence(hay: Seq<u8>, pats: Seq<Seq<u8>>) -> bool {
    exists|p: int, i: int| 0 <= p < pats.len() && occurs_at(hay, pats[p], i)
}

/// `m` is a genuine occurrence of one of `pats` in `hay`.
pub open spec fn match_ok(hay: Seq<u8>, pats: Seq<Seq<u8>>, m: PatMatch) -> bool {
    &&& m.pattern < pats.len()
    &&& m.end == m.start + pats[m.pattern as int].len()
    &&& occurs_at(hay, pats[m.pattern as int], m.start as int)
}

/// The offset from which the scan would resume after the matches `ms`.
pub open spec fn resume_at(ms: Seq<PatMatch>) -> int {
    if ms.len() == 0 {
        0int
    } else {
        ms.last().end as int
    }
}

/// The offset from which the scan looks for its match number `k`: the start
/// of the buffer for the first, the end of the previous match after that.
pub open spec fn scan_start(ms: Seq<PatMatch>, k: int) -> int {
    if k == 0 {
        0int
    } else {
        ms[k - 1].end as int
    }
}

/// What one left-to-right scan of `hay` for `pats` yields: every reported
/// match is a genuine occurrence of its pattern; the matches come in
/// increasing order and do not overlap; each reported match ends no later
/// than any occurrence that starts at or after the end of the previous
/// match (the scan reports the earliest-ending occurrence each time; which
/// of two occurrences with one end it reports is not pinned here); and no
/// occurrence of any pattern lies entirely at or after the end of the last
/// match (in particular, a buffer with no occurrence at all yields no
/// matches).
pub open spec fn valid_scan(hay: Seq<u8>, pats: Seq<Seq<u8>>, ms: Seq<PatMatch>) -> bool {
    &&& forall|k: int| 0 <= k < ms.len() ==> match_ok(hay, pats, #[trigger] ms[k])
    &&& forall|k: int| 1 <= k < ms.len() ==> (#[trigger] ms[k]).start >= ms[k - 1].end
    &&& forall|k: int, p: int, i: int|
        #![trigger ms[k], occurs_at(hay, pats[p], i)]
        0 <= k < ms.len() && 0 <= p < pats.len() && i >= scan_start(ms, k) && occurs_at(
            hay,
            pats[p],
            i,
        ) ==> i + pats[p].len() >= ms[k].end
    &&& forall|p: int, i: int|
        #![trigger occurs_at(hay, pats[p], i)]
        0 <= p < pats.len() && i >= resume_at(ms) ==> !occurs_at(hay, pats[p], i)
}

/// Law: a scan finds a match if and only if some pattern occurs at all.
pub proof fn lemma_scan_found_iff_occurrence(hay: Seq<u8>, pats: Seq<Seq<u8>>, ms: Seq<PatMatch>)
    requires
        valid_scan(hay, pats, ms),
    ensures
        (ms.len() > 0) == some_occurrence(hay, pats),
{
    if ms.len() > 0 {
        assert(match_ok(hay, pats, ms[0]));
        assert(occurs_at(hay, pats[ms[0].pattern as int], ms[0].start as int));
    } else {
        assert forall|p: int, i: int| 0 <= p < pats.len() implies !occurs_at(
            hay,
            pats[p],
            i,
        ) by {
            if i >= 0 {
                assert(i >= resume_at(ms));
            }
        }
    }
}

#[verifier::external_type_specification]
#[verifier::external_body]
pub struct ExAhoCorasick(aho_corasick::AhoCorasick);

#[verifier::external_type_specification]
#[verifier::external_body]
pub struct ExBuildError(aho_corasick::BuildError);

/// The list of byte patterns a searcher was built from, in order.
pub uninterp spec fn automaton_patterns(ac: aho_corasick::AhoCorasick) -> Seq<Seq<u8>>;

/// Whether the default-configuration build of a searcher over these
/// patterns succeeds. The builder is deterministic in the pattern list, so
/// this is a function of the patterns alone.
pub uninterp spec fn automaton_builds(pats: Seq<Seq<u8>>) -> bool;

/// Relies on `aho_corasick::AhoCorasick::new`: with the default
/// configuration it builds a standard-semantics searcher over exactly the
/// given patterns, in the given order. Whether it succeeds or fails is
/// decided by the pattern list alone, named by `automaton_builds`.
#[verifier::external_body]
pub(crate) fn automaton_new(pats: &Vec<Vec<u8>>) -> (r: Result<
    aho_corasick::AhoCorasick,
    aho_corasick::BuildError,
>)
    ensures
        (r is Ok) == automaton_builds(pats@.map_values(|p: Vec<u8>| p@)),
        r matches Ok(ac) ==> automaton_patterns(ac) == pats@.map_values(|p: Vec<u8>| p@),
{
    aho_corasick::AhoCorasick::new(pats)
}

/// Relies on `aho_corasick::AhoCorasick::find_iter`: with the default
/// standard match semantics it reports non-overlapping occurrences in
/// left-to-right order, resuming each time at the end of the previous
/// match, reporting the earliest-ending occurrence each time, and reports
/// one whenever any occurrence remains ahead of that point. Empty patterns
/// are kept out by the caller so that every reported span is non-empty.
/// For a plain unanchored byte-slice input the call does not panic.
#[verifier::external_body]
pub(crate) fn automaton_find_all(ac: &aho_corasick::AhoCorasick, hay: &Vec<u8>) -> (r: Vec<
    PatMatch,
>)
    requires
        forall|p: int|
            0 <= p < automaton_patterns(*ac).len() ==> automaton_patterns(*ac)[p].len() > 0,
    ensures
        valid_scan(hay@, automaton_patterns(*ac), r@),
{
    ac.find_iter(hay.as_slice())
        .map(
            |m: aho_corasick::Match|
                PatMatch { pattern: m.pattern().as_usize(), start: m.start(), end: m.end() },
        )
        .collect()
}

} // verus!
