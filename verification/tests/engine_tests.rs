//! The catalog, the decimal wire form of user identifiers, and the
//! toggle engine.

use reaxnbot::catalog::Reaction;
use reaxnbot::catalog::all_kinds;
use reaxnbot::decimal::format_i32;
use reaxnbot::decimal::format_u64;
use reaxnbot::decimal::parse_i32;
use reaxnbot::state::ReactionState;

#[test]
fn catalog_identifiers_round_trip() {
    for k in all_kinds() {
        let id = k.get_id();
        assert_eq!(Reaction::from_id(id), Some(k));
    }
}

#[test]
fn catalog_identifiers_are_stable() {
    assert_eq!(Reaction::Heart.get_id(), "love");
    assert_eq!(Reaction::Laugh.get_id(), "laugh");
    assert_eq!(Reaction::Anger.get_id(), "anger");
    assert_eq!(Reaction::Sad.get_id(), "sad");
    assert_eq!(Reaction::Up.get_id(), "up");
    assert_eq!(Reaction::Down.get_id(), "down");
}

#[test]
fn catalog_rejects_unknown_identifier() {
    assert_eq!(Reaction::from_id("wave"), None);
    assert_eq!(Reaction::from_id(""), None);
    assert_eq!(Reaction::from_id("Love"), None);
}

#[test]
fn catalog_glyphs() {
    assert_eq!(Reaction::Heart.get_emoji(), "\u{2764}\u{fe0f}");
    assert_eq!(Reaction::Laugh.get_emoji(), "\u{1f602}");
    assert_eq!(Reaction::Anger.get_emoji(), "\u{1f621}");
    assert_eq!(Reaction::Sad.get_emoji(), "\u{1f62d}");
    assert_eq!(Reaction::Up.get_emoji(), "\u{1f44d}");
    assert_eq!(Reaction::Down.get_emoji(), "\u{1f44e}");
}

#[test]
fn display_order_is_fixed() {
    let kinds = all_kinds();
    assert_eq!(
        kinds,
        vec![
            Reaction::Heart,
            Reaction::Laugh,
            Reaction::Anger,
            Reaction::Sad,
            Reaction::Up,
            Reaction::Down,
        ]
    );
}

#[test]
fn decimal_formats_values() {
    assert_eq!(format_i32(0), "0");
    assert_eq!(format_i32(7), "7");
    assert_eq!(format_i32(-1), "-1");
    assert_eq!(format_i32(123456789), "123456789");
    assert_eq!(format_i32(i32::MAX), "2147483647");
    assert_eq!(format_i32(i32::MIN), "-2147483648");
    assert_eq!(format_u64(0), "0");
    assert_eq!(format_u64(18446744073709551615), "18446744073709551615");
}

#[test]
fn decimal_parses_what_it_formats() {
    for v in [0, 1, -1, 42, -42, 1000000, i32::MAX, i32::MIN] {
        assert_eq!(parse_i32(&format_i32(v)), Some(v));
    }
}

#[test]
fn decimal_accepts_leading_zeros() {
    assert_eq!(parse_i32("007"), Some(7));
    assert_eq!(parse_i32("-007"), Some(-7));
    assert_eq!(parse_i32("0000000000000000001"), Some(1));
}

#[test]
fn decimal_rejects_bad_tokens() {
    assert_eq!(parse_i32(""), None);
    assert_eq!(parse_i32("-"), None);
    assert_eq!(parse_i32("12a"), None);
    assert_eq!(parse_i32("+7"), None);
    assert_eq!(parse_i32(" 7"), None);
    assert_eq!(parse_i32("2147483648"), None);
    assert_eq!(parse_i32("-2147483649"), None);
    assert_eq!(parse_i32("99999999999999999999999999"), None);
}

#[test]
fn toggle_adds_then_removes() {
    let mut st = ReactionState::new();
    assert!(st.toggle(Reaction::Up, 5));
    assert_eq!(st.votes_for(Reaction::Up), vec![5]);
    assert!(!st.toggle(Reaction::Up, 5));
    assert_eq!(st.votes_for(Reaction::Up), Vec::<i32>::new());
}

#[test]
fn toggle_symmetry_on_values() {
    // Double toggle is the identity on every kind's votes.
    let mut st = ReactionState::new();
    st.toggle(Reaction::Heart, 1);
    st.toggle(Reaction::Heart, 2);
    st.toggle(Reaction::Down, 3);
    let before: Vec<Vec<i32>> = all_kinds().iter().map(|k| st.votes_for(*k)).collect();
    st.toggle(Reaction::Heart, 9);
    st.toggle(Reaction::Heart, 9);
    let after: Vec<Vec<i32>> = all_kinds().iter().map(|k| st.votes_for(*k)).collect();
    assert_eq!(before, after);
}

#[test]
fn toggle_independence_on_values() {
    // Toggling one kind never changes another kind's votes.
    let mut st = ReactionState::new();
    st.toggle(Reaction::Heart, 1);
    st.toggle(Reaction::Sad, 2);
    let sad_before = st.votes_for(Reaction::Sad);
    let heart_before = st.votes_for(Reaction::Heart);
    st.toggle(Reaction::Up, 1);
    st.toggle(Reaction::Heart, 7);
    assert_eq!(st.votes_for(Reaction::Sad), sad_before);
    st.toggle(Reaction::Heart, 7);
    assert_eq!(st.votes_for(Reaction::Heart), heart_before);
}

#[test]
fn toggle_keeps_other_voters_order() {
    let mut st = ReactionState::new();
    st.toggle(Reaction::Up, 1);
    st.toggle(Reaction::Up, 2);
    st.toggle(Reaction::Up, 3);
    st.toggle(Reaction::Up, 2);
    assert_eq!(st.votes_for(Reaction::Up), vec![1, 3]);
}
