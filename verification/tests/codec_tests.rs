//! The state codec: encoding, decoding, their round trip, and decode
//! tolerance of unrelated annotations.

use reaxnbot::catalog::Reaction;
use reaxnbot::codec::encode;
use reaxnbot::codec::get_reactions_users;
use reaxnbot::state::ReactionState;

const MARKER: &str = "\u{034f}";

fn state_of(votes: &[(Reaction, &[i32])]) -> ReactionState {
    let mut st = ReactionState::new();
    for (k, users) in votes {
        for u in *users {
            assert!(st.toggle(*k, *u));
        }
    }
    st
}

#[test]
fn encode_empty_state() {
    let enc = encode(&ReactionState::new());
    assert_eq!(enc.url, "https://reaxnbot.dev/reactions?");
    assert_eq!(enc.tally, "");
    assert_eq!(enc.message, "[\u{034f}](https://reaxnbot.dev/reactions?) ");
}

#[test]
fn encode_one_vote() {
    let enc = encode(&state_of(&[(Reaction::Up, &[2])]));
    assert_eq!(enc.url, "https://reaxnbot.dev/reactions?up=2");
    assert_eq!(enc.tally, "\u{1f44d} *1*");
    assert_eq!(enc.message, "[\u{034f}](https://reaxnbot.dev/reactions?up=2) \u{1f44d} *1*");
}

#[test]
fn encode_orders_kinds_by_catalog_not_by_insertion() {
    // Down was voted first, Heart second; the encoding still lists the
    // heart parameter first.
    let enc = encode(&state_of(&[(Reaction::Down, &[9]), (Reaction::Heart, &[4, 7])]));
    assert_eq!(enc.url, "https://reaxnbot.dev/reactions?love=4,7&down=9");
    assert_eq!(enc.tally, "\u{2764}\u{fe0f} *2*  \u{1f44e} *1*");
}

#[test]
fn encode_filters_empty_kinds() {
    // A kind whose votes were all toggled away leaves no trace: the
    // output equals that of a state that never saw the kind.
    let mut with_empty = state_of(&[(Reaction::Sad, &[1]), (Reaction::Up, &[2])]);
    assert!(!with_empty.toggle(Reaction::Sad, 1));
    let without = state_of(&[(Reaction::Up, &[2])]);
    let a = encode(&with_empty);
    let b = encode(&without);
    assert_eq!(a.url, b.url);
    assert_eq!(a.tally, b.tally);
    assert_eq!(a.message, b.message);
}

#[test]
fn encode_negative_user_ids() {
    let enc = encode(&state_of(&[(Reaction::Anger, &[-3, 12])]));
    assert_eq!(enc.url, "https://reaxnbot.dev/reactions?anger=-3,12");
}

#[test]
fn decode_round_trips_encode() {
    let st = state_of(&[
        (Reaction::Laugh, &[10, 20, 30]),
        (Reaction::Heart, &[5]),
        (Reaction::Down, &[-1, 7]),
    ]);
    let enc = encode(&st);
    let decoded = get_reactions_users(MARKER, &vec![enc.url.clone()])
        .expect("decoding an encoded message never corrupts")
        .expect("an encoded message is a reaction message");
    for k in reaxnbot::catalog::all_kinds() {
        assert_eq!(decoded.votes_for(k), st.votes_for(k));
    }
}

#[test]
fn decode_without_marker_or_annotation_is_absent() {
    let r = get_reactions_users("just some text", &Vec::new());
    assert!(matches!(r, Ok(None)));
}

#[test]
fn decode_ignores_unrelated_links() {
    let anns = vec![
        "https://example.com/reactions?love=1".to_string(),
        "https://reaxnbot.dev/other?love=1".to_string(),
        "http://reaxnbot.dev/reactions?love=1".to_string(),
    ];
    let r = get_reactions_users("no marker here", &anns);
    assert!(matches!(r, Ok(None)));
}

#[test]
fn decode_marker_without_annotation_is_empty_state() {
    let r = get_reactions_users(MARKER, &Vec::new())
        .expect("a bare marker never corrupts")
        .expect("a marker message is a reaction message");
    for k in reaxnbot::catalog::all_kinds() {
        assert_eq!(r.votes_for(k), Vec::<i32>::new());
    }
}

#[test]
fn decode_reads_votes_from_url() {
    let anns = vec!["https://reaxnbot.dev/reactions?love=4,7&down=9".to_string()];
    let st = get_reactions_users("irrelevant", &anns).unwrap().unwrap();
    assert_eq!(st.votes_for(Reaction::Heart), vec![4, 7]);
    assert_eq!(st.votes_for(Reaction::Down), vec![9]);
    assert_eq!(st.votes_for(Reaction::Up), Vec::<i32>::new());
}

#[test]
fn decode_merges_two_matching_annotations_by_union() {
    let anns = vec![
        "https://reaxnbot.dev/reactions?love=1,2".to_string(),
        "https://reaxnbot.dev/reactions?love=2,3&up=1".to_string(),
    ];
    let st = get_reactions_users("x", &anns).unwrap().unwrap();
    assert_eq!(st.votes_for(Reaction::Heart), vec![1, 2, 3]);
    assert_eq!(st.votes_for(Reaction::Up), vec![1]);
}

#[test]
fn decode_empty_query_is_empty_state() {
    let anns = vec!["https://reaxnbot.dev/reactions?".to_string()];
    let st = get_reactions_users("x", &anns).unwrap().unwrap();
    for k in reaxnbot::catalog::all_kinds() {
        assert_eq!(st.votes_for(k), Vec::<i32>::new());
    }
    let bare = vec!["https://reaxnbot.dev/reactions".to_string()];
    assert!(get_reactions_users("x", &bare).unwrap().is_some());
}

#[test]
fn decode_rejects_unknown_reaction_key() {
    let anns = vec!["https://reaxnbot.dev/reactions?wave=1".to_string()];
    assert!(get_reactions_users("x", &anns).is_err());
}

#[test]
fn decode_rejects_bad_user_token() {
    let anns = vec!["https://reaxnbot.dev/reactions?love=1,abc".to_string()];
    assert!(get_reactions_users("x", &anns).is_err());
    let empty_tok = vec!["https://reaxnbot.dev/reactions?love=".to_string()];
    assert!(get_reactions_users("x", &empty_tok).is_err());
    let no_eq = vec!["https://reaxnbot.dev/reactions?love".to_string()];
    assert!(get_reactions_users("x", &no_eq).is_err());
    let overflow = vec!["https://reaxnbot.dev/reactions?love=2147483648".to_string()];
    assert!(get_reactions_users("x", &overflow).is_err());
}

#[test]
fn decode_corrupt_wins_over_other_good_annotations() {
    // A partially decoded state would silently drop voters, so one bad
    // matching annotation aborts the whole decode.
    let anns = vec![
        "https://reaxnbot.dev/reactions?love=1".to_string(),
        "https://reaxnbot.dev/reactions?love=oops".to_string(),
    ];
    assert!(get_reactions_users("x", &anns).is_err());
}
