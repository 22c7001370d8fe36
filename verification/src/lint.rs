//! The pattern compiler and the single-pass scan-and-rewrite engine.

use vstd::prelude::*;

use crate::patterns::builtin_pats;
use crate::patterns::builtin_patterns;
use crate::patterns::combined_pats;
use crate::patterns::reason_for_index;
use crate::patterns::reason_from_index;
use crate::patterns::Diagnostic;
use crate::patterns::LintError;
use crate::patterns::Reason;
use crate::position::col_at;
use crate::position::lemma_position_advance;
use crate::position::lemma_position_bounds;
use crate::position::lemma_tail_run_full;
use crate::position::line_at;
use crate::position::scan_gap;
use crate::search::automaton_builds;
use crate::search::automaton_find_all;
use crate::search::automaton_new;
use crate::search::automaton_patterns;
use crate::search::lemma_scan_found_iff_occurrence;
use crate::search::match_ok;
use crate::search::some_occurrence;
use crate::search::valid_scan;
use crate::search::PatMatch;

verus! {

/// Append `src[from..to]` to `dst`.
fn append_range(dst: &mut Vec<u8>, src: &Vec<u8>, from: usize, to: usize)
    requires
        from <= to <= src@.len(),
    ensures
        final(dst)@ == old(dst)@ + src@.subrange(from as int, to as int),
{
    let mut i: usize = from;
    while i < to
        invariant
            from <= i <= to <= src@.len(),
            dst@ =~= old(dst)@ + src@.subrange(from as int, i as int),
        decreases to - i,
    {
        dst.push(src[i]);
        proof {
            assert(src@.subrange(from as int, i + 1) =~= src@.subrange(from as int, i as int).push(
                src@[i as int],
            ));
            assert(dst@ =~= old(dst)@ + src@.subrange(from as int, i + 1));
        }
        i = i + 1;
    }
    assert(dst@ =~= old(dst)@ + src@.subrange(from as int, to as int));
}

fn copy_bytes(src: &Vec<u8>) -> (r: Vec<u8>)
    ensures
        r@ == src@,
{
    let mut r: Vec<u8> = Vec::new();
    append_range(&mut r, src, 0, src.len());
    assert(r@ =~= src@);
    r
}

/// A compiled pattern list: the searchable structure together with the
/// pattern bytes it was built from, kept side by side so that a match's
/// index can be classified and its text examined.
pub struct PatternSet {
    automaton: aho_corasick::AhoCorasick,
    pats: Vec<Vec<u8>>,
}

impl PatternSet {
    /// The byte patterns this set searches for, in order.
    pub closed spec fn pats_view(self) -> Seq<Seq<u8>> {
        self.pats@.map_values(|p: Vec<u8>| p@)
    }

    /// The searcher and the stored pattern list agree, and no pattern is
    /// empty.
    pub closed spec fn wf(self) -> bool {
        &&& automaton_patterns(self.automaton) == self.pats_view()
        &&& forall|j: int| 0 <= j < self.pats_view().len() ==> self.pats_view()[j].len() > 0
    }

    /// Compile the built-in patterns followed by the caller's patterns into
    /// one searchable set. Fails with `EmptyPattern` exactly when some
    /// caller pattern holds no bytes, and with `AutomatonBuild` exactly
    /// when the searcher cannot be built from this pattern list, which
    /// depends on the pattern list alone; on every other input it
    /// succeeds.
    pub fn new(user_pats: &Vec<Vec<u8>>) -> (r: Result<PatternSet, LintError>)
        ensures
            (exists|j: int| 0 <= j < user_pats@.len() && user_pats@[j]@.len() == 0) <==> (
            r matches Err(e) && e == LintError::EmptyPattern),
            (r matches Err(e) && e == LintError::AutomatonBuild) <==> {
                &&& !(exists|j: int| 0 <= j < user_pats@.len() && user_pats@[j]@.len() == 0)
                &&& !automaton_builds(combined_pats(pat_views(user_pats@)))
            },
            (r is Ok) <==> {
                &&& !(exists|j: int| 0 <= j < user_pats@.len() && user_pats@[j]@.len() == 0)
                &&& automaton_builds(combined_pats(pat_views(user_pats@)))
            },
            r matches Ok(ps) ==> {
                &&& ps.wf()
                &&& ps.pats_view() == combined_pats(pat_views(user_pats@))
            },
    {
        let ghost user_view = user_pats@.map_values(|p: Vec<u8>| p@);
        let mut i: usize = 0;
        while i < user_pats.len()
            invariant
                i <= user_pats@.len(),
                forall|j: int| 0 <= j < i ==> user_pats@[j]@.len() > 0,
            decreases user_pats@.len() - i,
        {
            if user_pats[i].len() == 0 {
                assert(user_pats@[i as int]@.len() == 0);
                return Err(LintError::EmptyPattern);
            }
            i = i + 1;
        }
        let mut pats: Vec<Vec<u8>> = builtin_patterns();
        let mut i: usize = 0;
        while i < user_pats.len()
            invariant
                i <= user_pats@.len(),
                user_view == user_pats@.map_values(|p: Vec<u8>| p@),
                pats@.map_values(|p: Vec<u8>| p@) =~= builtin_pats() + user_view.take(i as int),
            decreases user_pats@.len() - i,
        {
            let cp = copy_bytes(&user_pats[i]);
            let ghost before = pats@.map_values(|p: Vec<u8>| p@);
            pats.push(cp);
            proof {
                assert(pats@.map_values(|p: Vec<u8>| p@) =~= before.push(cp@));
                assert(user_view.take(i + 1) =~= user_view.take(i as int).push(
                    user_view[i as int],
                ));
                assert(pats@.map_values(|p: Vec<u8>| p@) =~= builtin_pats() + user_view.take(
                    i + 1,
                ));
            }
            i = i + 1;
        }
        proof {
            assert(user_view.take(user_view.len() as int) =~= user_view);
            assert(pats@.map_values(|p: Vec<u8>| p@) =~= combined_pats(user_view));
        }
        match automaton_new(&pats) {
            Ok(ac) => {
                let ps = PatternSet { automaton: ac, pats };
                proof {
                    assert(builtin_pats()[0].len() == 8);
                    assert(builtin_pats()[1].len() == 8);
                    assert(builtin_pats()[2].len() == 8);
                    assert(builtin_pats()[3].len() == 2);
                    assert(builtin_pats()[4].len() == 2);
                    assert(builtin_pats()[5].len() == 1);
                    assert forall|j: int|
                        0 <= j < ps.pats_view().len() implies ps.pats_view()[j].len() > 0 by {
                        if j >= 6 {
                            assert(ps.pats_view()[j] == user_view[j - 6]);
                            assert(user_pats@[j - 6]@.len() > 0);
                        }
                    }
                }
                Ok(ps)
            },
            Err(_) => Err(LintError::AutomatonBuild),
        }
    }
}

/// The pattern's bytes end in a newline.
pub open spec fn ends_with_newline(p: Seq<u8>) -> bool {
    p.len() > 0 && p.last() == 10u8
}

/// The pattern is anchored to a line start by its leading newline.
pub open spec fn is_anchored(p: Seq<u8>) -> bool {
    p.len() > 0 && p[0] == 10u8
}

/// The offset at which a match is reported: for an anchored pattern the
/// first byte of the anchored content, one past the consumed newline.
pub open spec fn report_pos(pats: Seq<Seq<u8>>, m: PatMatch) -> int {
    m.start + if is_anchored(pats[m.pattern as int]) {
        1int
    } else {
        0int
    }
}

/// The diagnostic reported for the match `m` of `pats` in `hay`: the
/// 1-based line and column of its report offset, counted from the start of
/// the scanned buffer, and the classification of its pattern index.
pub open spec fn diag_for(hay: Seq<u8>, pats: Seq<Seq<u8>>, m: PatMatch) -> Diagnostic {
    Diagnostic {
        line: line_at(hay, report_pos(pats, m)) as usize,
        col: col_at(hay, report_pos(pats, m)) as usize,
        reason: reason_for_index(m.pattern as int),
    }
}

/// The rewritten buffer from offset `from` on, given the matches still
/// ahead: the gap before each match is kept up to its report offset, so an
/// anchored pattern's consumed newline stays; the rest of the matched span
/// is dropped; a newline is put back for a pattern whose bytes end in one;
/// and the tail after the last match is kept whole.
pub open spec fn rewrite_from(
    hay: Seq<u8>,
    pats: Seq<Seq<u8>>,
    ms: Seq<PatMatch>,
    from: int,
) -> Seq<u8>
    decreases ms.len(),
{
    if ms.len() == 0 {
        hay.subrange(from, hay.len() as int)
    } else {
        hay.subrange(from, report_pos(pats, ms[0])) + (if ends_with_newline(
            pats[ms[0].pattern as int],
        ) {
            seq![10u8]
        } else {
            Seq::<u8>::empty()
        }) + rewrite_from(hay, pats, ms.drop_first(), ms[0].end as int)
    }
}

/// The whole buffer rewritten with every matched span removed.
pub open spec fn rewritten(hay: Seq<u8>, pats: Seq<Seq<u8>>, ms: Seq<PatMatch>) -> Seq<u8> {
    rewrite_from(hay, pats, ms, 0)
}

/// Law: scanning a buffer in which no pattern occurs reports no match and
/// rewrites nothing: the buffer passes through byte for byte.
pub proof fn lemma_clean_scan_unchanged(hay: Seq<u8>, pats: Seq<Seq<u8>>, ms: Seq<PatMatch>)
    requires
        valid_scan(hay, pats, ms),
        !some_occurrence(hay, pats),
    ensures
        ms.len() == 0,
        rewritten(hay, pats, ms) == hay,
{
    lemma_scan_found_iff_occurrence(hay, pats, ms);
    assert(rewrite_from(hay, pats, ms, 0) =~= hay);
}

/// Law: a reported match of an anchored pattern always stands just after a
/// newline byte of the scanned buffer, and is reported at the byte after
/// that newline; mid-line text equal to the anchored content can never be
/// reported.
pub proof fn lemma_anchored_match_after_newline(
    hay: Seq<u8>,
    pats: Seq<Seq<u8>>,
    ms: Seq<PatMatch>,
    k: int,
)
    requires
        valid_scan(hay, pats, ms),
        0 <= k < ms.len(),
        is_anchored(pats[ms[k].pattern as int]),
    ensures
        hay[ms[k].start as int] == 10u8,
        report_pos(pats, ms[k]) == ms[k].start + 1,
{
    assert(match_ok(hay, pats, ms[k]));
    let pat = pats[ms[k].pattern as int];
    assert(hay.subrange(ms[k].start as int, ms[k].start + pat.len()) == pat);
    assert(hay.subrange(ms[k].start as int, ms[k].start + pat.len())[0] == hay[ms[k].start as int]);
}

/// One pass of the scan-and-rewrite engine, handing back the match list it
/// processed as a ghost witness.
#[verifier::rlimit(100)]
fn lint_scan(ps: &PatternSet, contents: &Vec<u8>, fix: bool) -> (r: (
    bool,
    Vec<Diagnostic>,
    Vec<u8>,
    Ghost<Seq<PatMatch>>,
))
    requires
        ps.wf(),
        contents@.len() < usize::MAX,
    ensures
        valid_scan(contents@, ps.pats_view(), r.3@),
        r.0 == (r.3@.len() > 0),
        r.0 == some_occurrence(contents@, ps.pats_view()),
        r.1@.len() == r.3@.len(),
        forall|k: int|
            0 <= k < r.3@.len() ==> r.1@[k] == diag_for(contents@, ps.pats_view(), r.3@[k]),
        fix ==> r.2@ == rewritten(contents@, ps.pats_view(), r.3@),
        !fix ==> r.2@ == contents@,
        !r.0 ==> r.2@ == contents@,
{
    let ms = automaton_find_all(&ps.automaton, contents);
    let mut diags: Vec<Diagnostic> = Vec::new();
    let mut fixed: Vec<u8> = Vec::new();
    let mut last_end: usize = 0;
    let mut cur_off: usize = 0;
    let mut cur_line: usize = 1;
    let mut cur_col: usize = 1;
    let mut k: usize = 0;
    proof {
        assert(ms@.skip(0) =~= ms@);
        assert(fixed@ + rewrite_from(contents@, ps.pats_view(), ms@, 0) =~= rewrite_from(
            contents@,
            ps.pats_view(),
            ms@,
            0,
        ));
    }
    while k < ms.len()
        invariant
            ps.wf(),
            forall|j: int| 0 <= j < ms@.len() ==> match_ok(contents@, ps.pats_view(), #[trigger] ms@[j]),
            forall|j: int| 1 <= j < ms@.len() ==> (#[trigger] ms@[j]).start >= ms@[j - 1].end,
            contents@.len() < usize::MAX,
            k <= ms@.len(),
            cur_off == if k == 0 {
                0int
            } else {
                report_pos(ps.pats_view(), ms@[k - 1])
            },
            cur_off <= contents@.len(),
            cur_line == line_at(contents@, cur_off as int),
            cur_col == col_at(contents@, cur_off as int),
            diags@.len() == k,
            forall|j: int|
                0 <= j < k ==> diags@[j] == diag_for(contents@, ps.pats_view(), ms@[j]),
            last_end == if k == 0 {
                0int
            } else {
                ms@[k - 1].end as int
            },
            last_end <= contents@.len(),
            fix ==> rewritten(contents@, ps.pats_view(), ms@) == fixed@ + rewrite_from(
                contents@,
                ps.pats_view(),
                ms@.skip(k as int),
                last_end as int,
            ),
        decreases ms@.len() - k,
    {
        let m = ms[k];
        proof {
            assert(match_ok(contents@, ps.pats_view(), ms@[k as int]));
            assert(ps.pats_view()[m.pattern as int].len() > 0);
            assert(ps.pats_view()[m.pattern as int] == ps.pats@[m.pattern as int]@);
            if k > 0 {
                assert(ms@[k as int].start >= ms@[k as int - 1].end);
            }
        }
        let pat = &ps.pats[m.pattern];
        let anchored = pat[0] == 10;
        proof {
            assert(anchored == is_anchored(ps.pats_view()[m.pattern as int]));
        }
        let pos = if anchored {
            m.start + 1
        } else {
            m.start
        };
        proof {
            assert(pos == report_pos(ps.pats_view(), ms@[k as int]));
            assert(cur_off <= pos && pos <= contents@.len());
        }
        let (nls, run) = scan_gap(contents, cur_off, pos);
        proof {
            lemma_position_advance(contents@, cur_off as int, pos as int);
            lemma_position_bounds(contents@, pos as int);
            lemma_position_bounds(contents@, cur_off as int);
            if nls == 0 {
                lemma_tail_run_full(contents@.subrange(cur_off as int, pos as int));
            }
        }
        let line = cur_line + nls;
        let col = if nls == 0 {
            run + cur_col
        } else {
            run + 1
        };
        proof {
            assert(line == line_at(contents@, pos as int));
            assert(col == col_at(contents@, pos as int));
        }
        let reason = reason_from_index(m.pattern);
        diags.push(Diagnostic { line, col, reason });
        proof {
            assert(diags@[k as int] == diag_for(contents@, ps.pats_view(), ms@[k as int]));
        }
        cur_off = pos;
        cur_line = line;
        cur_col = col;
        if fix {
            let ghost fixed0 = fixed@;
            let ghost le0 = last_end as int;
            append_range(&mut fixed, contents, last_end, pos);
            let ghost gap = contents@.subrange(le0, pos as int);
            let ghost nlopt: Seq<u8> = if ends_with_newline(ps.pats_view()[m.pattern as int]) {
                seq![10u8]
            } else {
                Seq::<u8>::empty()
            };
            let plen = pat.len();
            if pat[plen - 1] == 10 {
                fixed.push(10);
            }
            proof {
                assert(ends_with_newline(ps.pats_view()[m.pattern as int]) == (pat@[plen - 1]
                    == 10u8));
                assert(fixed@ =~= fixed0 + gap + nlopt);
                let rest = ms@.skip(k as int);
                assert(rest.len() > 0);
                assert(rest[0] == ms@[k as int]);
                assert(rest.drop_first() =~= ms@.skip(k as int + 1));
                assert(rewrite_from(contents@, ps.pats_view(), rest, le0) == gap + nlopt
                    + rewrite_from(
                    contents@,
                    ps.pats_view(),
                    ms@.skip(k as int + 1),
                    m.end as int,
                ));
                assert(fixed0 + (gap + nlopt + rewrite_from(
                    contents@,
                    ps.pats_view(),
                    ms@.skip(k as int + 1),
                    m.end as int,
                )) =~= (fixed0 + gap + nlopt) + rewrite_from(
                    contents@,
                    ps.pats_view(),
                    ms@.skip(k as int + 1),
                    m.end as int,
                ));
            }
        }
        last_end = m.end;
        k = k + 1;
    }
    if fix {
        let ghost le0 = last_end as int;
        append_range(&mut fixed, contents, last_end, contents.len());
        proof {
            assert(ms@.skip(k as int) =~= Seq::<PatMatch>::empty());
            assert(rewrite_from(contents@, ps.pats_view(), ms@.skip(k as int), le0)
                == contents@.subrange(le0, contents@.len() as int));
            assert(fixed@ =~= rewritten(contents@, ps.pats_view(), ms@));
        }
    } else {
        fixed = copy_bytes(contents);
    }
    let bad = ms.len() > 0;
    proof {
        lemma_scan_found_iff_occurrence(contents@, ps.pats_view(), ms@);
        if fix && ms@.len() == 0 {
            assert(rewritten(contents@, ps.pats_view(), ms@) =~= contents@);
        }
    }
    (bad, diags, fixed, Ghost(ms@))
}

/// Scan `contents` for the compiled patterns and report every occurrence
/// with its 1-based line and column; with `fix` set, also hand back the
/// buffer with every matched span removed and consumed newlines restored.
/// Without `fix`, the buffer passes through unchanged.
pub fn lint_patterns(ps: &PatternSet, contents: &Vec<u8>, fix: bool) -> (r: (
    bool,
    Vec<Diagnostic>,
    Vec<u8>,
))
    requires
        ps.wf(),
        contents@.len() < usize::MAX,
    ensures
        r.0 == some_occurrence(contents@, ps.pats_view()),
        !fix ==> r.2@ == contents@,
        !r.0 ==> r.2@ == contents@,
        exists|ms: Seq<PatMatch>|
            {
                &&& #[trigger] valid_scan(contents@, ps.pats_view(), ms)
                &&& r.0 == (ms.len() > 0)
                &&& r.1@.len() == ms.len()
                &&& forall|k: int|
                    0 <= k < ms.len() ==> r.1@[k] == diag_for(contents@, ps.pats_view(), ms[k])
                &&& fix ==> r.2@ == rewritten(contents@, ps.pats_view(), ms)
            },
{
    let (bad, diags, fixed, ms) = lint_scan(ps, contents, fix);
    (bad, diags, fixed)
}

/// The buffer opens with a UTF-8 byte-order mark.
pub open spec fn has_bom(s: Seq<u8>) -> bool {
    s.len() >= 3 && s[0] == 0xEFu8 && s[1] == 0xBBu8 && s[2] == 0xBFu8
}

/// The part of the scanned buffer a byte-order mark occupies.
pub open spec fn bom_len() -> int {
    3int
}

/// The byte sequences of a list of byte vectors, in order.
pub open spec fn pat_views(ps: Seq<Vec<u8>>) -> Seq<Seq<u8>> {
    ps.map_values(|p: Vec<u8>| p@)
}

/// What a successful lint of `hay` hands back, given the match list `ms`
/// that one scan reported: `bad` says whether anything was found, `diags`
/// lists one diagnostic per finding in scan order, and `out_buf` is the
/// buffer handed back to the caller. A byte-order mark at the start is
/// itself a defect, reported at 1:1; with `fix` set it is stripped before
/// the pattern scan runs, so the remaining scan sees the stripped buffer,
/// while without `fix` the scan runs over the original buffer, byte-order
/// mark included. With `fix` set the returned buffer has the mark and every
/// matched span removed; without it the buffer passes through unchanged.
pub open spec fn lint_outcome(
    hay: Seq<u8>,
    user: Seq<Seq<u8>>,
    fix: bool,
    ms: Seq<PatMatch>,
    bad: bool,
    diags: Seq<Diagnostic>,
    out_buf: Seq<u8>,
) -> bool {
    let pats = combined_pats(user);
    let scanned = if has_bom(hay) && fix {
        hay.skip(bom_len())
    } else {
        hay
    };
    let off: int = if has_bom(hay) {
        1int
    } else {
        0int
    };
    &&& valid_scan(scanned, pats, ms)
    &&& bad == (has_bom(hay) || ms.len() > 0)
    &&& bad == (has_bom(hay) || some_occurrence(scanned, pats))
    &&& !fix ==> out_buf == hay
    &&& !bad ==> out_buf == hay
    &&& has_bom(hay) ==> diags.len() >= 1 && diags[0] == (Diagnostic {
        line: 1,
        col: 1,
        reason: Reason::ByteOrderMark,
    })
    &&& (has_bom(hay) && fix && !some_occurrence(scanned, pats)) ==> out_buf == hay.skip(bom_len())
    &&& diags.len() == ms.len() + off
    &&& forall|k: int| 0 <= k < ms.len() ==> diags[k + off] == diag_for(scanned, pats, ms[k])
    &&& fix ==> out_buf == rewritten(scanned, pats, ms)
}

/// There is a match list under which `lint_outcome` ties the result to
/// the input.
#[verifier::opaque]
pub open spec fn lints_to(
    hay: Seq<u8>,
    user: Seq<Seq<u8>>,
    fix: bool,
    bad: bool,
    diags: Seq<Diagnostic>,
    out_buf: Seq<u8>,
) -> bool {
    exists|ms: Seq<PatMatch>| lint_outcome(hay, user, fix, ms, bad, diags, out_buf)
}

/// Law: every lint result comes from one scan; this hands back the match
/// list that ties the result to the input through `lint_outcome`.
pub proof fn lemma_lints_to_scan(
    hay: Seq<u8>,
    user: Seq<Seq<u8>>,
    fix: bool,
    bad: bool,
    diags: Seq<Diagnostic>,
    out_buf: Seq<u8>,
) -> (ms: Seq<PatMatch>)
    requires
        lints_to(hay, user, fix, bad, diags, out_buf),
    ensures
        lint_outcome(hay, user, fix, ms, bad, diags, out_buf),
{
    reveal(lints_to);
    choose|ms: Seq<PatMatch>| lint_outcome(hay, user, fix, ms, bad, diags, out_buf)
}

/// Law: a buffer without a byte-order mark in which no pattern occurs is
/// reported clean, gets no diagnostic, and passes through byte for byte,
/// with or without fix mode.
pub proof fn lemma_clean_input(
    hay: Seq<u8>,
    user: Seq<Seq<u8>>,
    fix: bool,
    bad: bool,
    diags: Seq<Diagnostic>,
    out_buf: Seq<u8>,
)
    requires
        lints_to(hay, user, fix, bad, diags, out_buf),
        !has_bom(hay),
        !some_occurrence(hay, combined_pats(user)),
    ensures
        !bad,
        diags.len() == 0,
        out_buf == hay,
{
    let ms = lemma_lints_to_scan(hay, user, fix, bad, diags, out_buf);
    lemma_scan_found_iff_occurrence(hay, combined_pats(user), ms);
}

/// Law: removing a byte-order mark in fix mode, when no pattern occurs in
/// the stripped remainder, yields the input with exactly its first three
/// bytes removed, and the mark is still reported, alone, at 1:1.
pub proof fn lemma_bom_strip(
    hay: Seq<u8>,
    user: Seq<Seq<u8>>,
    bad: bool,
    diags: Seq<Diagnostic>,
    out_buf: Seq<u8>,
)
    requires
        lints_to(hay, user, true, bad, diags, out_buf),
        has_bom(hay),
        !some_occurrence(hay.skip(bom_len()), combined_pats(user)),
    ensures
        bad,
        out_buf == hay.skip(bom_len()),
        diags.len() == 1,
        diags[0] == (Diagnostic { line: 1, col: 1, reason: Reason::ByteOrderMark }),
{
    let ms = lemma_lints_to_scan(hay, user, true, bad, diags, out_buf);
    lemma_scan_found_iff_occurrence(hay.skip(bom_len()), combined_pats(user), ms);
}

/// Law: one match strips exactly its span: the rewritten buffer keeps
/// everything up to the report offset, restores a newline when the matched
/// bytes ended in one, and keeps everything from the match's end on.
pub proof fn lemma_single_match_rewrite(hay: Seq<u8>, pats: Seq<Seq<u8>>, m: PatMatch)
    requires
        match_ok(hay, pats, m),
    ensures
        rewritten(hay, pats, seq![m]) == hay.subrange(0, report_pos(pats, m)) + (
        if ends_with_newline(pats[m.pattern as int]) {
            seq![10u8]
        } else {
            Seq::<u8>::empty()
        }) + hay.subrange(m.end as int, hay.len() as int),
{
    assert(seq![m].drop_first() =~= Seq::<PatMatch>::empty());
    assert(seq![m][0] == m);
    assert(rewrite_from(hay, pats, Seq::<PatMatch>::empty(), m.end as int) == hay.subrange(
        m.end as int,
        hay.len() as int,
    ));
    assert(rewritten(hay, pats, seq![m]) == hay.subrange(0, report_pos(pats, m)) + (
    if ends_with_newline(pats[m.pattern as int]) {
        seq![10u8]
    } else {
        Seq::<u8>::empty()
    }) + rewrite_from(hay, pats, Seq::<PatMatch>::empty(), m.end as int));
}

/// Lint one buffer against the built-in defects and the caller's literal
/// patterns, reporting every occurrence in order with its 1-based line and
/// column; see `lint_outcome` for exactly what the result says. The call
/// fails with `EmptyPattern` exactly when some caller pattern holds no
/// bytes, and with `AutomatonBuild` exactly when the searcher cannot be
/// built from this pattern list, which depends on the pattern list alone;
/// on every other input it succeeds.
#[verifier::rlimit(100)]
pub fn lint_bytes(contents: &Vec<u8>, user_pats: &Vec<Vec<u8>>, fix: bool) -> (r: Result<
    (bool, Vec<Diagnostic>, Vec<u8>),
    LintError,
>)
    requires
        contents@.len() < usize::MAX,
    ensures
        (exists|j: int| 0 <= j < user_pats@.len() && user_pats@[j]@.len() == 0) <==> (
        r matches Err(e) && e == LintError::EmptyPattern),
        (r matches Err(e) && e == LintError::AutomatonBuild) <==> {
            &&& !(exists|j: int| 0 <= j < user_pats@.len() && user_pats@[j]@.len() == 0)
            &&& !automaton_builds(combined_pats(pat_views(user_pats@)))
        },
        (r is Ok) <==> {
            &&& !(exists|j: int| 0 <= j < user_pats@.len() && user_pats@[j]@.len() == 0)
            &&& automaton_builds(combined_pats(pat_views(user_pats@)))
        },
        r matches Ok(out) ==> lints_to(
            contents@,
            pat_views(user_pats@),
            fix,
            out.0,
            out.1@,
            out.2@,
        ),
{
    let ps = match PatternSet::new(user_pats) {
        Ok(ps) => ps,
        Err(e) => {
            return Err(e);
        },
    };
    let bom_found = contents.len() >= 3 && contents[0] == 0xEF && contents[1] == 0xBB
        && contents[2] == 0xBF;
    proof {
        assert(bom_found == has_bom(contents@));
    }
    let mut diags: Vec<Diagnostic> = Vec::new();
    if bom_found {
        diags.push(Diagnostic { line: 1, col: 1, reason: Reason::ByteOrderMark });
    }
    let ghost prefix = diags@;
    let (out, wit): ((bool, Vec<Diagnostic>, Vec<u8>), Ghost<Seq<PatMatch>>) = if bom_found
        && fix {
        let mut rest: Vec<u8> = Vec::new();
        append_range(&mut rest, contents, 3, contents.len());
        proof {
            assert(rest@ =~= contents@.skip(3));
        }
        let (_pbad, mut pdiags, pfixed, ms) = lint_scan(&ps, &rest, fix);
        let ghost pdiags0 = pdiags@;
        diags.append(&mut pdiags);
        proof {
            assert(diags@ =~= prefix + pdiags0);
            assert forall|k: int| 0 <= k < ms@.len() implies diags@[k + 1] == diag_for(
                rest@,
                ps.pats_view(),
                ms@[k],
            ) by {
                assert(diags@[k + 1] == pdiags0[k]);
            }
            if !some_occurrence(rest@, ps.pats_view()) {
                lemma_clean_scan_unchanged(rest@, ps.pats_view(), ms@);
            }
            let pats = combined_pats(user_pats@.map_values(|p: Vec<u8>| p@));
            let scanned = if has_bom(contents@) && fix {
                contents@.skip(bom_len())
            } else {
                contents@
            };
            assert(rest@ == scanned);
            assert(pats == ps.pats_view());
            assert(valid_scan(scanned, pats, ms@));
            assert(diags@.len() == ms@.len() + 1);
            assert(forall|k: int|
                0 <= k < ms@.len() ==> diags@[k + 1] == diag_for(scanned, pats, ms@[k]));
            assert(fix ==> pfixed@ == rewritten(scanned, pats, ms@));
            assert(lint_outcome(
                contents@,
                pat_views(user_pats@),
                fix,
                ms@,
                true,
                diags@,
                pfixed@,
            ));
        }
        ((true, diags, pfixed), Ghost(ms@))
    } else {
        let (pbad, mut pdiags, pfixed, ms) = lint_scan(&ps, contents, fix);
        let bad = bom_found || pbad;
        let ghost pdiags0 = pdiags@;
        diags.append(&mut pdiags);
        proof {
            assert(diags@ =~= prefix + pdiags0);
            let ghost off: int = if bom_found {
                1int
            } else {
                0int
            };
            assert forall|k: int| 0 <= k < ms@.len() implies diags@[k + off] == diag_for(
                contents@,
                ps.pats_view(),
                ms@[k],
            ) by {
                assert(diags@[k + off] == pdiags0[k]);
            }
            let pats = combined_pats(user_pats@.map_values(|p: Vec<u8>| p@));
            let scanned = if has_bom(contents@) && fix {
                contents@.skip(bom_len())
            } else {
                contents@
            };
            assert(pats == ps.pats_view());
            assert(!(has_bom(contents@) && fix));
            assert(scanned == contents@);
            assert(valid_scan(scanned, pats, ms@));
            assert(bad == (has_bom(contents@) || ms@.len() > 0));
            assert(diags@.len() == ms@.len() + if has_bom(contents@) { 1int } else { 0int });
            assert(fix ==> pfixed@ == rewritten(scanned, pats, ms@));
            assert(lint_outcome(
                contents@,
                pat_views(user_pats@),
                fix,
                ms@,
                bad,
                diags@,
                pfixed@,
            ));
        }
        ((bad, diags, pfixed), Ghost(ms@))
    };
    proof {
        assert(lint_outcome(
            contents@,
            pat_views(user_pats@),
            fix,
            wit@,
            out.0,
            out.1@,
            out.2@,
        ));
        assert(lints_to(contents@, pat_views(user_pats@), fix, out.0, out.1@, out.2@)) by {
            reveal(lints_to);
        };
    }
    Ok(out)
}

} // verus!
