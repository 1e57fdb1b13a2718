//! The renderer and the orchestration flows, including the end-to-end
//! command, press and summary scenarios.

use reaxnbot::catalog::Reaction;
use reaxnbot::orchestrate::CallbackResponse;
use reaxnbot::orchestrate::Command;
use reaxnbot::orchestrate::CommandStep;
use reaxnbot::orchestrate::DeleteOutcome;
use reaxnbot::orchestrate::SummaryReply;
use reaxnbot::orchestrate::delete_failure_is_fatal;
use reaxnbot::orchestrate::display_name_or_placeholder;
use reaxnbot::orchestrate::handle_callback_query;
use reaxnbot::orchestrate::handle_command;
use reaxnbot::orchestrate::handle_inline_query;
use reaxnbot::orchestrate::handle_show_target;
use reaxnbot::orchestrate::is_reaction_message;
use reaxnbot::orchestrate::ShowStep;
use reaxnbot::orchestrate::reaction_message_text;
use reaxnbot::orchestrate::summary_line;
use reaxnbot::orchestrate::summary_reply;
use reaxnbot::orchestrate::summary_votes;
use reaxnbot::orchestrate::toggle_reaction;
use reaxnbot::render::create_reaction_keyboard;
use reaxnbot::state::ReactionState;

#[test]
fn command_parse_recognizes_commands() {
    assert_eq!(Command::parse("/help"), Some(Command::Help));
    assert_eq!(Command::parse("/r"), Some(Command::React));
    assert_eq!(Command::parse("/heart"), Some(Command::Heart));
    assert_eq!(Command::parse("/up"), Some(Command::Up));
    assert_eq!(Command::parse("/down"), Some(Command::Down));
    assert_eq!(Command::parse("/s"), Some(Command::Show));
}

#[test]
fn command_parse_takes_first_token_and_bot_suffix() {
    assert_eq!(Command::parse("/r extra words"), Some(Command::React));
    assert_eq!(Command::parse("/s@reaxnbot"), Some(Command::Show));
    assert_eq!(Command::parse("/s@reaxnbot trailing"), Some(Command::Show));
    assert_eq!(Command::parse("/s@otherbot"), None);
    assert_eq!(Command::parse("hello /r"), None);
    assert_eq!(Command::parse("/react"), None);
    assert_eq!(Command::parse(""), None);
}

#[test]
fn command_descriptions_list_all_commands() {
    let d = Command::descriptions();
    assert!(d.starts_with("These commands are supported:"));
    for cmd in ["/help", "/r", "/heart", "/up", "/down", "/s"] {
        assert!(d.contains(&format!("\n{} \u{2014} ", cmd)));
    }
}

#[test]
fn handle_command_help() {
    match handle_command(Command::Help, false) {
        CommandStep::Help(t) => assert_eq!(t, Command::descriptions()),
        _ => panic!("help must be answered with the descriptions"),
    }
}

#[test]
fn handle_command_without_reply_target_replies_guidance() {
    match handle_command(Command::React, false) {
        CommandStep::Reply(t) => assert_eq!(
            t,
            "You need to reply to a message with /r so I know which message you're reacting to."
        ),
        _ => panic!("a reply target is required"),
    }
    match handle_command(Command::Show, false) {
        CommandStep::Reply(t) => assert_eq!(
            t,
            "You need to reply to a message with /s so I know which message you're asking about."
        ),
        _ => panic!("a reply target is required"),
    }
}

#[test]
fn handle_command_seeds_shortcuts() {
    match handle_command(Command::React, true) {
        CommandStep::StartReaction(seed) => assert_eq!(seed, None),
        _ => panic!("a replied /r starts a reaction"),
    }
    match handle_command(Command::Heart, true) {
        CommandStep::StartReaction(seed) => assert_eq!(seed, Some(Reaction::Heart)),
        _ => panic!("a replied /heart starts a seeded reaction"),
    }
    match handle_command(Command::Up, true) {
        CommandStep::StartReaction(seed) => assert_eq!(seed, Some(Reaction::Up)),
        _ => panic!("a replied /up starts a seeded reaction"),
    }
    match handle_command(Command::Down, true) {
        CommandStep::StartReaction(seed) => assert_eq!(seed, Some(Reaction::Down)),
        _ => panic!("a replied /down starts a seeded reaction"),
    }
    match handle_command(Command::Show, true) {
        CommandStep::ShowSummary => {}
        _ => panic!("a replied /s shows the summary"),
    }
}

#[test]
fn delete_permission_failure_is_swallowed() {
    assert!(!delete_failure_is_fatal(DeleteOutcome::Deleted));
    assert!(!delete_failure_is_fatal(DeleteOutcome::ApiError(401)));
    assert!(delete_failure_is_fatal(DeleteOutcome::ApiError(400)));
    assert!(delete_failure_is_fatal(DeleteOutcome::OtherError));
}

#[test]
fn renderer_orders_controls_by_catalog() {
    // Same votes inserted in two different orders: the controls come
    // out identical, in catalog display order.
    let mut a = ReactionState::new();
    a.toggle(Reaction::Down, 1);
    a.toggle(Reaction::Heart, 2);
    a.toggle(Reaction::Heart, 3);
    let mut b = ReactionState::new();
    b.toggle(Reaction::Heart, 3);
    b.toggle(Reaction::Heart, 2);
    b.toggle(Reaction::Down, 1);
    let ka = create_reaction_keyboard(&a);
    let kb = create_reaction_keyboard(&b);
    assert_eq!(ka.len(), 6);
    assert_eq!(kb.len(), 6);
    for (ca, cb) in ka.iter().zip(kb.iter()) {
        assert_eq!(ca.label, cb.label);
        assert_eq!(ca.payload, cb.payload);
    }
    let payloads: Vec<&str> = ka.iter().map(|c| c.payload.as_str()).collect();
    assert_eq!(payloads, vec!["love", "laugh", "anger", "sad", "up", "down"]);
    assert_eq!(ka[0].label, "\u{2764}\u{fe0f} 2");
    assert_eq!(ka[5].label, "\u{1f44e} 1");
    assert_eq!(ka[1].label, "\u{1f602}");
}

#[test]
fn scenario_fresh_reaction_message() {
    // A replied "/r": the command message's deletion is tolerated, a
    // fresh reaction message is published with zero votes and six
    // bare-glyph controls.
    match handle_command(Command::React, true) {
        CommandStep::StartReaction(None) => {}
        _ => panic!("a replied /r starts an unseeded reaction"),
    }
    assert!(!delete_failure_is_fatal(DeleteOutcome::Deleted));
    let text = reaction_message_text();
    assert_eq!(text, "\u{034f}");
    let keyboard = create_reaction_keyboard(&ReactionState::new());
    assert_eq!(keyboard.len(), 6);
    let labels: Vec<&str> = keyboard.iter().map(|c| c.label.as_str()).collect();
    assert_eq!(
        labels,
        vec![
            "\u{2764}\u{fe0f}",
            "\u{1f602}",
            "\u{1f621}",
            "\u{1f62d}",
            "\u{1f44d}",
            "\u{1f44e}",
        ]
    );
}

#[test]
fn scenario_first_press_adds_vote() {
    // User 2 presses the thumbs-up control on the fresh message: the
    // new encoding carries the vote, the control shows count 1, and the
    // press is acknowledged with the glyph.
    let text = reaction_message_text();
    match handle_callback_query(true, Some("up"), &text, &Vec::new(), 2) {
        CallbackResponse::Toggled(outcome, ack) => {
            assert!(outcome.added);
            assert_eq!(outcome.message.url, "https://reaxnbot.dev/reactions?up=2");
            assert_eq!(outcome.keyboard[4].label, "\u{1f44d} 1");
            assert_eq!(ack, "\u{1f44d}");
        }
        _ => panic!("the press must toggle"),
    }
}

#[test]
fn scenario_second_press_removes_vote() {
    // The same user presses thumbs-up again on the updated message: the
    // vote set empties, the encoding omits the key, the control reverts
    // to the bare glyph, and the press is acknowledged with the cancel
    // glyph.
    let text = reaction_message_text();
    let first = match handle_callback_query(true, Some("up"), &text, &Vec::new(), 2) {
        CallbackResponse::Toggled(outcome, _) => outcome,
        _ => panic!("the first press must toggle"),
    };
    let anns = vec![first.message.url];
    match handle_callback_query(true, Some("up"), "\u{034f} \u{1f44d} *1*", &anns, 2) {
        CallbackResponse::Toggled(outcome, ack) => {
            assert!(!outcome.added);
            assert_eq!(outcome.message.url, "https://reaxnbot.dev/reactions?");
            assert!(!outcome.message.url.contains("up="));
            assert_eq!(outcome.keyboard[4].label, "\u{1f44d}");
            assert_eq!(ack, "\u{274e}");
        }
        _ => panic!("the second press must toggle"),
    }
}

#[test]
fn scenario_summary_of_two_heart_votes() {
    // Users 2 and 3 voted heart; "/s" yields one line: the heart glyph,
    // the separator, and the two names in catalog-stable order.
    let mut st = ReactionState::new();
    st.toggle(Reaction::Heart, 2);
    st.toggle(Reaction::Heart, 3);
    assert!(is_reaction_message(true, "\u{034f} \u{2764}\u{fe0f} *2*"));
    let votes = summary_votes(&st);
    assert_eq!(votes.len(), 1);
    assert_eq!(votes[0].0, Reaction::Heart);
    assert_eq!(votes[0].1, vec![2, 3]);
    let names = vec![
        display_name_or_placeholder(Some("B's name".to_string())),
        display_name_or_placeholder(Some("C's name".to_string())),
    ];
    let line = summary_line(Reaction::Heart, &names);
    assert_eq!(line, "\u{2764}\u{fe0f} \u{2014} B's name, C's name");
    match summary_reply(&vec![line.clone()]) {
        SummaryReply::Lines(t) => assert_eq!(t, line),
        _ => panic!("two votes make a summary line"),
    }
}

#[test]
fn callback_on_missing_message_alerts() {
    match handle_callback_query(false, Some("up"), "", &Vec::new(), 1) {
        CallbackResponse::Unavailable(t) => assert_eq!(
            t,
            "Something's wrong with that message. Try this on another message."
        ),
        _ => panic!("a gone message yields the transient notice"),
    }
}

#[test]
fn callback_with_bad_payload_fails_this_update() {
    assert!(matches!(
        handle_callback_query(true, None, "\u{034f}", &Vec::new(), 1),
        CallbackResponse::Failed
    ));
    assert!(matches!(
        handle_callback_query(true, Some("wave"), "\u{034f}", &Vec::new(), 1),
        CallbackResponse::Failed
    ));
}

#[test]
fn callback_on_corrupt_state_fails_this_update() {
    let anns = vec!["https://reaxnbot.dev/reactions?love=oops".to_string()];
    assert!(matches!(
        handle_callback_query(true, Some("up"), "\u{034f}", &anns, 1),
        CallbackResponse::Failed
    ));
}

#[test]
fn toggle_reaction_treats_foreign_marker_message_as_empty() {
    // A legacy or foreign message carrying only the marker can still be
    // toggled once.
    let out = toggle_reaction("\u{034f} hello", &Vec::new(), Reaction::Sad, 4).unwrap();
    assert!(out.added);
    assert_eq!(out.message.url, "https://reaxnbot.dev/reactions?sad=4");
}

#[test]
fn summary_of_no_votes_is_fixed_notice() {
    match summary_reply(&Vec::new()) {
        SummaryReply::NoVotes(t) => assert_eq!(t, "_No one reacted to this message\\._"),
        _ => panic!("no votes make the fixed notice"),
    }
}

#[test]
fn summary_name_lookup_failure_degrades_to_placeholder() {
    assert_eq!(display_name_or_placeholder(None), "(unknown)");
    let line = summary_line(
        Reaction::Up,
        &vec!["A".to_string(), display_name_or_placeholder(None)],
    );
    assert_eq!(line, "\u{1f44d} \u{2014} A, (unknown)");
}

#[test]
fn summary_requires_a_reaction_message() {
    assert!(!is_reaction_message(false, "\u{034f}"));
    assert!(!is_reaction_message(true, "plain text"));
}

#[test]
fn show_target_refusal_text() {
    match handle_show_target(true, "plain text") {
        ShowStep::Refuse(t) => {
            assert_eq!(t, "You can only use /s to reply to a reaction message.")
        }
        _ => panic!("a target without the marker is refused"),
    }
    assert!(matches!(
        handle_show_target(true, "\u{034f} \u{2764}\u{fe0f} *2*"),
        ShowStep::Summarize
    ));
}

#[test]
fn inline_query_offers_all_kinds_seeded() {
    let items = handle_inline_query(77);
    assert_eq!(items.len(), 6);
    assert_eq!(items[0].result_id, "love");
    assert_eq!(items[4].result_id, "up");
    assert_eq!(
        items[4].message,
        "[\u{034f}](https://reaxnbot.dev/reactions?up=77) \u{1f44d} *1*"
    );
    assert_eq!(items[4].keyboard[4].label, "\u{1f44d} 1");
    assert!(items[0].sticker_id.starts_with("CAACAgEAAx0C"));
}

#[test]
fn toggle_reaction_edit_carries_marker_and_tally() {
    let out = toggle_reaction("\u{034f}", &Vec::new(), Reaction::Heart, 1).unwrap();
    assert_eq!(
        out.message.message,
        "[\u{034f}](https://reaxnbot.dev/reactions?love=1) \u{2764}\u{fe0f} *1*"
    );
    assert_eq!(out.message.tally, "\u{2764}\u{fe0f} *1*");
}
