//! Tests of the state-word helpers: the bit layout of the fired and
//! invalidated flags and of the generation counter.

use futures_timer::state_word::{
    bump_gen, make_clean, mark_fired, mark_invalidated, read_fired, read_gen, read_invalidated,
    MAX_GEN,
};

#[test]
fn fresh_word_is_clean() {
    let w = make_clean(0);
    assert_eq!(w, 0);
    assert!(!read_fired(w));
    assert!(!read_invalidated(w));
    assert_eq!(read_gen(w), 0);
}

#[test]
fn flags_are_independent_of_generation() {
    let w = make_clean(17);
    let fired = mark_fired(w);
    assert!(read_fired(fired));
    assert!(!read_invalidated(fired));
    assert_eq!(read_gen(fired), 17);
    let both = mark_invalidated(fired);
    assert!(read_fired(both));
    assert!(read_invalidated(both));
    assert_eq!(read_gen(both), 17);
}

#[test]
fn bump_clears_flags_and_increments() {
    let w = mark_invalidated(mark_fired(make_clean(5)));
    let bumped = bump_gen(w);
    assert!(!read_fired(bumped));
    assert!(!read_invalidated(bumped));
    assert_eq!(read_gen(bumped), 6);
}

#[test]
fn bump_wraps_at_the_top() {
    let w = make_clean(MAX_GEN);
    assert_eq!(read_gen(w), MAX_GEN);
    let bumped = bump_gen(w);
    assert_eq!(read_gen(bumped), 0);
    assert!(!read_fired(bumped));
}
