//! Line and column bookkeeping over a byte buffer.
//!
//! A position is always 1-based. The model counts from the start of the
//! buffer (`line_at`, `col_at`); the executable scanner advances a cursor
//! incrementally, and `lemma_position_advance` states that the two agree.

use vstd::prelude::*;

verus! {

/// The newline byte, `\n`.
pub open spec fn nl_byte() -> u8 {
    10u8
}

/// How many newline bytes `s` holds.
pub open spec fn newline_count(s: Seq<u8>) -> nat
    decreases s.len(),
{
    if s.len() == 0 {
        0nat
    } else {
        newline_count(s.drop_last()) + if s.last() == nl_byte() {
            1nat
        } else {
            0nat
        }
    }
}

/// The length of the run of non-newline bytes at the end of `s`.
pub open spec fn tail_run(s: Seq<u8>) -> nat
    decreases s.len(),
{
    if s.len() == 0 {
        0nat
    } else if s.last() == nl_byte() {
        0nat
    } else {
        tail_run(s.drop_last()) + 1nat
    }
}

/// The 1-based line number of the byte at offset `i` of `s`: one more than
/// the number of newlines strictly before it.
pub open spec fn line_at(s: Seq<u8>, i: int) -> int
    recommends
        0 <= i <= s.len(),
{
    1 + newline_count(s.take(i)) as int
}

/// The 1-based column of the byte at offset `i` of `s`: one more than the
/// number of bytes between it and the nearest preceding newline.
pub open spec fn col_at(s: Seq<u8>, i: int) -> int
    recommends
        0 <= i <= s.len(),
{
    1 + tail_run(s.take(i)) as int
}

proof fn lemma_counts_push(s: Seq<u8>, v: u8)
    ensures
        newline_count(s.push(v)) == newline_count(s) + if v == nl_byte() {
            1nat
        } else {
            0nat
        },
        tail_run(s.push(v)) == if v == nl_byte() {
            0nat
        } else {
            tail_run(s) + 1nat
        },
{
    assert(s.push(v).drop_last() =~= s);
    assert(s.push(v).last() == v);
}

proof fn lemma_newline_count_concat(a: Seq<u8>, b: Seq<u8>)
    ensures
        newline_count(a + b) == newline_count(a) + newline_count(b),
    decreases b.len(),
{
    if b.len() == 0 {
        assert(a + b =~= a);
    } else {
        assert((a + b).drop_last() =~= a + b.drop_last());
        lemma_newline_count_concat(a, b.drop_last());
    }
}

proof fn lemma_tail_run_concat(a: Seq<u8>, b: Seq<u8>)
    ensures
        tail_run(a + b) == if newline_count(b) == 0 {
            tail_run(a) + b.len()
        } else {
            tail_run(b)
        },
    decreases b.len(),
{
    if b.len() == 0 {
        assert(a + b =~= a);
    } else {
        assert((a + b).drop_last() =~= a + b.drop_last());
        lemma_tail_run_concat(a, b.drop_last());
    }
}

/// When `s` holds no newline, its tail run is all of it.
pub proof fn lemma_tail_run_full(s: Seq<u8>)
    requires
        newline_count(s) == 0,
    ensures
        tail_run(s) == s.len(),
    decreases s.len(),
{
    if s.len() > 0 {
        lemma_tail_run_full(s.drop_last());
    }
}

proof fn lemma_counts_bounded(s: Seq<u8>)
    ensures
        newline_count(s) <= s.len(),
        tail_run(s) <= s.len(),
    decreases s.len(),
{
    if s.len() > 0 {
        lemma_counts_bounded(s.drop_last());
    }
}

/// Line and column numbers never exceed the offset by more than one.
pub proof fn lemma_position_bounds(s: Seq<u8>, i: int)
    requires
        0 <= i <= s.len(),
    ensures
        1 <= line_at(s, i) <= i + 1,
        1 <= col_at(s, i) <= i + 1,
{
    lemma_counts_bounded(s.take(i));
}

/// Law: line and column may be advanced incrementally. Moving from offset
/// `a` to offset `b` of the same buffer, the new line number is the old one
/// plus the newlines in the gap; the new column restarts after a newline in
/// the gap and otherwise grows by the gap's length. This equals recomputing
/// both from the start of the buffer.
pub proof fn lemma_position_advance(s: Seq<u8>, a: int, b: int)
    requires
        0 <= a <= b <= s.len(),
    ensures
        line_at(s, b) == line_at(s, a) + newline_count(s.subrange(a, b)),
        col_at(s, b) == if newline_count(s.subrange(a, b)) == 0 {
            col_at(s, a) + (b - a)
        } else {
            1 + tail_run(s.subrange(a, b)) as int
        },
{
    assert(s.take(b) =~= s.take(a) + s.subrange(a, b));
    lemma_newline_count_concat(s.take(a), s.subrange(a, b));
    lemma_tail_run_concat(s.take(a), s.subrange(a, b));
    if newline_count(s.subrange(a, b)) == 0 {
        lemma_tail_run_full(s.subrange(a, b));
    }
}

/// Count the newlines in `s[from..to]` and the length of its final run of
/// non-newline bytes, in one pass.
pub fn scan_gap(s: &Vec<u8>, from: usize, to: usize) -> (r: (usize, usize))
    requires
        from <= to <= s@.len(),
    ensures
        r.0 == newline_count(s@.subrange(from as int, to as int)),
        r.1 == tail_run(s@.subrange(from as int, to as int)),
{
    let mut newlines: usize = 0;
    let mut run: usize = 0;
    let mut i: usize = from;
    while i < to
        invariant
            from <= i <= to <= s@.len(),
            newlines == newline_count(s@.subrange(from as int, i as int)),
            run == tail_run(s@.subrange(from as int, i as int)),
            newlines <= i - from,
            run <= i - from,
        decreases to - i,
    {
        proof {
            assert(s@.subrange(from as int, i + 1) =~= s@.subrange(from as int, i as int).push(
                s@[i as int],
            ));
            lemma_counts_push(s@.subrange(from as int, i as int), s@[i as int]);
        }
        if s[i] == 10 {
            newlines = newlines + 1;
            run = 0;
        } else {
            run = run + 1;
        }
        i = i + 1;
    }
    (newlines, run)
}

} // verus!
