//! The per-record atomic state word.
//!
//! A record's word packs three things: bit 0 is the fired flag, bit 1 is the
//! invalidated flag, and the remaining high bits hold a generation counter
//! that is bumped on every reset.  The helpers here are the only place that
//! touches the bit layout; everything else speaks of `w_fired`, `w_invalidated`
//! and `w_gen`.

use vstd::prelude::*;

verus! {

/// Largest generation a word can hold; a bump past it wraps to zero.
pub const MAX_GEN: u64 = u64::MAX >> 2;

/// The fired flag: bit 0.
pub open spec fn w_fired(w: u64) -> bool {
    w & 1 == 1
}

/// The invalidated flag: bit 1.
pub open spec fn w_invalidated(w: u64) -> bool {
    w & 2 == 2
}

/// The generation counter: bits 2 and up.
pub open spec fn w_gen(w: u64) -> u64 {
    w >> 2
}

/// The word a fresh or freshly reset record carries: the given generation,
/// both flags clear.
pub open spec fn w_clean(g: u64) -> u64 {
    g << 2
}

/// The generation that follows `g`: one more, wrapping past `MAX_GEN` to zero.
pub open spec fn next_gen(g: u64) -> u64 {
    if g == MAX_GEN {
        0
    } else {
        (g + 1) as u64
    }
}

/// A generation fits in the word's generation field.
pub proof fn lemma_gen_bounded(w: u64)
    ensures
        w_gen(w) <= MAX_GEN,
{
    assert(w >> 2 <= u64::MAX >> 2) by (bit_vector);
}

/// A clean word decodes to its generation with both flags clear.
pub proof fn lemma_clean(g: u64)
    requires
        g <= MAX_GEN,
    ensures
        w_gen(w_clean(g)) == g,
        !w_fired(w_clean(g)),
        !w_invalidated(w_clean(g)),
{
    assert(g <= u64::MAX >> 2 ==> (g << 2) >> 2 == g) by (bit_vector);
    assert((g << 2) & 1 == 0) by (bit_vector);
    assert((g << 2) & 2 == 0) by (bit_vector);
}

/// A word equals the clean word of its generation exactly when both flags
/// are clear.  This is the comparison the firing step makes.
pub proof fn lemma_clean_iff_flags_clear(w: u64)
    ensures
        w == w_clean(w_gen(w)) <==> !w_fired(w) && !w_invalidated(w),
{
    assert(w == (w >> 2) << 2 <==> w & 1 != 1 && w & 2 != 2) by (bit_vector);
}

/// Reads the fired flag.
pub fn read_fired(w: u64) -> (r: bool)
    ensures
        r == w_fired(w),
{
    w & 1 == 1
}

/// Reads the invalidated flag.
pub fn read_invalidated(w: u64) -> (r: bool)
    ensures
        r == w_invalidated(w),
{
    w & 2 == 2
}

/// Reads the generation counter.
pub fn read_gen(w: u64) -> (r: u64)
    ensures
        r == w_gen(w),
        r <= MAX_GEN,
{
    proof {
        lemma_gen_bounded(w);
    }
    w >> 2
}

/// Builds the clean word of a generation.
pub fn make_clean(g: u64) -> (r: u64)
    requires
        g <= MAX_GEN,
    ensures
        r == w_clean(g),
        w_gen(r) == g,
        !w_fired(r),
        !w_invalidated(r),
{
    proof {
        lemma_clean(g);
    }
    g << 2
}

/// Sets the fired flag, leaving the generation and the invalidated flag as
/// they are.
pub fn mark_fired(w: u64) -> (r: u64)
    ensures
        w_fired(r),
        w_invalidated(r) == w_invalidated(w),
        w_gen(r) == w_gen(w),
{
    proof {
        assert((w | 1) & 1 == 1) by (bit_vector);
        assert(((w | 1) & 2 == 2) == (w & 2 == 2)) by (bit_vector);
        assert((w | 1) >> 2 == w >> 2) by (bit_vector);
    }
    w | 1
}

/// Sets the invalidated flag, leaving the generation and the fired flag as
/// they are.
pub fn mark_invalidated(w: u64) -> (r: u64)
    ensures
        w_invalidated(r),
        w_fired(r) == w_fired(w),
        w_gen(r) == w_gen(w),
{
    proof {
        assert((w | 2) & 2 == 2) by (bit_vector);
        assert(((w | 2) & 1 == 1) == (w & 1 == 1)) by (bit_vector);
        assert((w | 2) >> 2 == w >> 2) by (bit_vector);
    }
    w | 2
}

/// The reset step on a word: bumps the generation and clears both flags in
/// one update.
pub fn bump_gen(w: u64) -> (r: u64)
    ensures
        r == w_clean(next_gen(w_gen(w))),
        w_gen(r) == next_gen(w_gen(w)),
        !w_fired(r),
        !w_invalidated(r),
{
    proof {
        lemma_gen_bounded(w);
    }
    let g = w >> 2;
    let g2: u64 = if g == MAX_GEN {
        0
    } else {
        g + 1
    };
    proof {
        lemma_clean(g2);
    }
    g2 << 2
}

} // verus!
