//! The orchestration policy: the decision logic of the command,
//! control-press and inline flows. Each function here is pure; the
//! surrounding program performs the platform calls (send, edit, delete,
//! answer, member lookup) and hands the outcomes back as plain values.

use vstd::prelude::*;

use crate::catalog::Reaction;
use crate::catalog::all_kinds;
use crate::catalog::display_order;
use crate::catalog::spec_emoji;
use crate::catalog::spec_id;
use crate::catalog::spec_kind_of_id;
use crate::codec::CorruptState;
use crate::codec::Encoded;
use crate::codec::encode;
use crate::codec::get_reactions_users;
use crate::codec::lemma_nonempty_pairs_snoc;
use crate::codec::marker_char;
use crate::codec::spec_decode;
use crate::codec::spec_enc_message;
use crate::codec::spec_enc_tally;
use crate::codec::spec_enc_url;
use crate::codec::spec_nonempty_pairs;
use crate::render::Control;
use crate::render::create_reaction_keyboard;
use crate::render::keyboard_ok;
use crate::state::Entries;
use crate::state::ReactionState;
use crate::state::UserId;
use crate::state::spec_toggle;
use crate::state::spec_votes;
use crate::state::wf_entries;
use crate::text::contains_char;
use crate::text::str_eq;
use crate::text::find_char;
use crate::text::join_strings;
use crate::text::join_with;
use crate::text::spec_find;

verus! {

// ---------------------------------------------------------------------
// Commands
// ---------------------------------------------------------------------

/// The user-facing commands of the bot.
#[derive(Copy, Clone, PartialEq, Eq, Structural, Debug)]
pub enum Command {
    /// Show the command descriptions.
    Help,
    /// Start a reaction message on the replied-to message (`/r`).
    React,
    /// Start one pre-seeded with a heart vote.
    Heart,
    /// Start one pre-seeded with a thumbs-up vote.
    Up,
    /// Start one pre-seeded with a thumbs-down vote.
    Down,
    /// Show who reacted to the replied-to reaction message (`/s`).
    Show,
}

/// The first whitespace-separated token of a message text.
pub open spec fn spec_command_token(text: Seq<char>) -> Seq<char> {
    match spec_find(text, ' ') {
        None => text,
        Some(i) => text.take(i),
    }
}

/// The command name of a token: an optional `@`-suffix must name this
/// bot, and is stripped.
pub open spec fn spec_command_name(head: Seq<char>) -> Option<Seq<char>> {
    match spec_find(head, '@') {
        None => Some(head),
        Some(i) => if head.skip(i + 1) == "reaxnbot"@ {
            Some(head.take(i))
        } else {
            None
        },
    }
}

/// The command a name denotes, if any.
pub open spec fn spec_command_of_name(name: Seq<char>) -> Option<Command> {
    if name == "/help"@ {
        Some(Command::Help)
    } else if name == "/r"@ {
        Some(Command::React)
    } else if name == "/heart"@ {
        Some(Command::Heart)
    } else if name == "/up"@ {
        Some(Command::Up)
    } else if name == "/down"@ {
        Some(Command::Down)
    } else if name == "/s"@ {
        Some(Command::Show)
    } else {
        None
    }
}

/// The command carried by a message text, if any.
pub open spec fn spec_parse_command(text: Seq<char>) -> Option<Command> {
    match spec_command_name(spec_command_token(text)) {
        None => None,
        Some(n) => spec_command_of_name(n),
    }
}

impl Command {
    /// Parses the command of a message text: its first token, with an
    /// optional `@reaxnbot` suffix stripped.
    pub fn parse(text: &str) -> (r: Option<Command>)
        ensures
            r == spec_parse_command(text@),
    {
        let head: &str = match find_char(text, ' ') {
            None => text,
            Some(i) => {
                proof {
                    crate::text::lemma_find_spec(text@, ' ');
                }
                let h = text.substring_char(0, i);
                proof {
                    assert(h@ =~= text@.take(i as int));
                }
                h
            },
        };
        let name: &str = match find_char(head, '@') {
            None => head,
            Some(i) => {
                proof {
                    crate::text::lemma_find_spec(head@, '@');
                }
                let n = head.unicode_len();
                let bot = head.substring_char(i + 1, n);
                proof {
                    assert(bot@ =~= head@.skip(i as int + 1));
                }
                if str_eq(bot, "reaxnbot") {
                    let n = head.substring_char(0, i);
                    proof {
                        assert(n@ =~= head@.take(i as int));
                    }
                    n
                } else {
                    return None;
                }
            },
        };
        if str_eq(name, "/help") {
            Some(Command::Help)
        } else if str_eq(name, "/r") {
            Some(Command::React)
        } else if str_eq(name, "/heart") {
            Some(Command::Heart)
        } else if str_eq(name, "/up") {
            Some(Command::Up)
        } else if str_eq(name, "/down") {
            Some(Command::Down)
        } else if str_eq(name, "/s") {
            Some(Command::Show)
        } else {
            None
        }
    }

    /// The help text listing the commands.
    pub fn descriptions() -> (r: String)
        ensures
            r@ == help_text(),
    {
        "These commands are supported:\n/help \u{2014} display this text.\n/r \u{2014} react to a message\n/heart \u{2014} react to a message with a \u{2764}\n/up \u{2014} react to a message with a \u{1f44d}\n/down \u{2014} react to a message with a \u{1f44e}\n/s \u{2014} show who reacted to a message".to_owned()
    }
}

/// The help text.
pub open spec fn help_text() -> Seq<char> {
    "These commands are supported:\n/help \u{2014} display this text.\n/r \u{2014} react to a message\n/heart \u{2014} react to a message with a \u{2764}\n/up \u{2014} react to a message with a \u{1f44d}\n/down \u{2014} react to a message with a \u{1f44e}\n/s \u{2014} show who reacted to a message"@
}

// ---------------------------------------------------------------------
// Fixed reply texts
// ---------------------------------------------------------------------

/// Guidance when a start-a-reaction command is not a reply.
pub open spec fn react_guidance() -> Seq<char> {
    "You need to reply to a message with /r so I know which message you're reacting to."@
}

/// Guidance when the summary command is not a reply.
pub open spec fn show_guidance() -> Seq<char> {
    "You need to reply to a message with /s so I know which message you're asking about."@
}

/// Refusal when the summary command replies to no reaction message.
pub open spec fn show_refusal() -> Seq<char> {
    "You can only use /s to reply to a reaction message."@
}

/// Ephemeral notice when the pressed message is gone.
pub open spec fn unavailable_notice() -> Seq<char> {
    "Something's wrong with that message. Try this on another message."@
}

/// The summary when no kind has votes (markdown source).
pub open spec fn no_reactions_text() -> Seq<char> {
    "_No one reacted to this message\\._"@
}

/// The stand-in for a voter whose display name cannot be resolved.
pub open spec fn placeholder_name() -> Seq<char> {
    "(unknown)"@
}

/// The glyph acknowledging a removed vote.
pub open spec fn cancel_glyph() -> Seq<char> {
    "\u{274e}"@
}

// ---------------------------------------------------------------------
// The command flow
// ---------------------------------------------------------------------

/// The first decision of the command flow.
pub enum CommandStep {
    /// Reply with this guidance or refusal and stop; no state changes.
    Reply(String),
    /// Answer with the command descriptions.
    Help(String),
    /// Delete the command message best-effort, publish a fresh reaction
    /// message anchored to the reply target, and, for a shortcut
    /// command, seed one vote of this kind from the invoking user.
    StartReaction(Option<Reaction>),
    /// Decode the reply target and show who reacted.
    ShowSummary,
}

/// The seed vote of a shortcut command.
pub open spec fn spec_seed(cmd: Command) -> Option<Reaction> {
    match cmd {
        Command::Heart => Some(Reaction::Heart),
        Command::Up => Some(Reaction::Up),
        Command::Down => Some(Reaction::Down),
        _ => None,
    }
}

/// Decides a received command: help is always answered; the other
/// commands demand a reply target and otherwise yield a fixed guidance
/// reply and no state change.
pub fn handle_command(cmd: Command, has_reply_target: bool) -> (r: CommandStep)
    ensures
        match r {
            CommandStep::Help(t) => cmd == Command::Help && t@ == help_text(),
            CommandStep::Reply(t) => !has_reply_target && cmd != Command::Help && ((cmd
                == Command::Show && t@ == show_guidance()) || (cmd != Command::Show && t@
                == react_guidance())),
            CommandStep::StartReaction(seed) => has_reply_target && cmd != Command::Help && cmd
                != Command::Show && seed == spec_seed(cmd),
            CommandStep::ShowSummary => has_reply_target && cmd == Command::Show,
        },
{
    match cmd {
        Command::Help => CommandStep::Help(Command::descriptions()),
        Command::Show => {
            if has_reply_target {
                CommandStep::ShowSummary
            } else {
                CommandStep::Reply(
                    "You need to reply to a message with /s so I know which message you're asking about.".to_owned(),
                )
            }
        },
        _ => {
            if has_reply_target {
                let seed = match cmd {
                    Command::Heart => Some(Reaction::Heart),
                    Command::Up => Some(Reaction::Up),
                    Command::Down => Some(Reaction::Down),
                    _ => None,
                };
                CommandStep::StartReaction(seed)
            } else {
                CommandStep::Reply(
                    "You need to reply to a message with /r so I know which message you're reacting to.".to_owned(),
                )
            }
        },
    }
}

/// What the platform reported when the bot tried to delete the command
/// message.
#[derive(Copy, Clone, PartialEq, Eq, Structural, Debug)]
pub enum DeleteOutcome {
    /// The message was deleted.
    Deleted,
    /// The platform refused with this API status code.
    ApiError(u16),
    /// The call failed some other way.
    OtherError,
}

/// Which delete outcomes the flow tolerates: success, or the fixed
/// authorization status that means the bot may not delete here.
pub open spec fn spec_delete_tolerated(o: DeleteOutcome) -> bool {
    match o {
        DeleteOutcome::Deleted => true,
        DeleteOutcome::ApiError(code) => code == 401,
        DeleteOutcome::OtherError => false,
    }
}

/// Whether a delete outcome aborts the flow: an authorization refusal
/// is swallowed and the flow continues; any other failure propagates.
pub fn delete_failure_is_fatal(o: DeleteOutcome) -> (r: bool)
    ensures
        r == !spec_delete_tolerated(o),
{
    match o {
        DeleteOutcome::Deleted => false,
        DeleteOutcome::ApiError(code) => code != 401,
        DeleteOutcome::OtherError => true,
    }
}

/// The text of a freshly published reaction message: the bare marker.
pub fn reaction_message_text() -> (r: String)
    ensures
        r@ == seq![marker_char()],
{
    proof {
        reveal_strlit("\u{034f}");
        assert("\u{034f}"@ =~= seq![marker_char()]);
    }
    "\u{034f}".to_owned()
}

// ---------------------------------------------------------------------
// The toggle flow
// ---------------------------------------------------------------------

/// The computed outcome of one toggle on a message: whether the vote
/// was added, the re-encoded message, and the re-rendered keyboard.
pub struct ToggleOutcome {
    pub added: bool,
    pub message: Encoded,
    pub keyboard: Vec<Control>,
}

/// What a correct toggle outcome of a decoded state looks like.
pub open spec fn toggle_outcome_ok(o: ToggleOutcome, e0: Entries, k: Reaction, u: UserId) -> bool {
    let t = spec_toggle(e0, k, u);
    &&& o.added == t.1
    &&& o.message.url@ == spec_enc_url(t.0)
    &&& o.message.tally@ == spec_enc_tally(t.0)
    &&& o.message.message@ == spec_enc_message(t.0)
    &&& keyboard_ok(o.keyboard@, t.0)
    &&& wf_entries(t.0)
}

/// The state a decode outcome stands for: an absent state is treated as
/// empty, so legacy or foreign marker messages can still be toggled.
pub open spec fn decoded_or_empty(d: Result<Option<Entries>, CorruptState>) -> Entries {
    match d {
        Ok(Some(e)) => e,
        Ok(None) => Seq::<(Reaction, Seq<UserId>)>::empty(),
        Err(_) => Seq::<(Reaction, Seq<UserId>)>::empty(),
    }
}

/// Toggles one user's vote of one kind on a message: decodes the
/// message's current state (absent counts as empty), applies the toggle
/// engine, and re-encodes and re-renders. Reports whether the vote was
/// added. A corrupt stored state aborts instead of dropping voters.
pub fn toggle_reaction(
    text: &str,
    annotations: &Vec<String>,
    reaction: Reaction,
    user_id: UserId,
) -> (r: Result<ToggleOutcome, CorruptState>)
    ensures
        ({
            let d = spec_decode(text@, annotations@.map_values(|a: String| a@));
            match r {
                Err(_) => d is Err,
                Ok(o) => d is Ok && toggle_outcome_ok(o, decoded_or_empty(d), reaction, user_id),
            }
        }),
{
    match get_reactions_users(text, annotations) {
        Err(c) => Err(c),
        Ok(opt) => {
            let mut st = match opt {
                Some(s) => s,
                None => ReactionState::new(),
            };
            let added = st.toggle(reaction, user_id);
            let message = encode(&st);
            let keyboard = create_reaction_keyboard(&st);
            Ok(ToggleOutcome { added, message, keyboard })
        },
    }
}

// ---------------------------------------------------------------------
// The control-press flow
// ---------------------------------------------------------------------

/// The decision on a control press.
pub enum CallbackResponse {
    /// The pressed message is gone: show this alert, change nothing.
    Unavailable(String),
    /// The payload is missing or unrecognized, or the stored state is
    /// corrupt: this update fails, nothing is changed.
    Failed,
    /// Edit the message to the new encoding and keyboard, and
    /// acknowledge the press with this ephemeral text.
    Toggled(ToggleOutcome, String),
}

/// Decides a control press: an unreachable message yields a transient
/// notice; an unrecognized payload or a corrupt stored state fails this
/// update; otherwise the vote is toggled and the press is acknowledged
/// with the kind's glyph (vote added) or the cancel glyph (removed).
pub fn handle_callback_query(
    has_message: bool,
    payload: Option<&str>,
    text: &str,
    annotations: &Vec<String>,
    user_id: UserId,
) -> (r: CallbackResponse)
    ensures
        ({
            let d = spec_decode(text@, annotations@.map_values(|a: String| a@));
            match r {
                CallbackResponse::Unavailable(t) => !has_message && t@ == unavailable_notice(),
                CallbackResponse::Failed => has_message && (payload is None || (
                payload matches Some(p) && spec_kind_of_id(p@) is None) || (
                payload matches Some(p) && spec_kind_of_id(p@) is Some && d is Err)),
                CallbackResponse::Toggled(o, ack) => has_message && (payload matches Some(p)
                    && spec_kind_of_id(p@) matches Some(k) && d is Ok && toggle_outcome_ok(
                    o,
                    decoded_or_empty(d),
                    k,
                    user_id,
                ) && ack@ == if o.added {
                    spec_emoji(k)
                } else {
                    cancel_glyph()
                }),
            }
        }),
{
    if !has_message {
        return CallbackResponse::Unavailable(
            "Something's wrong with that message. Try this on another message.".to_owned(),
        );
    }
    let p = match payload {
        None => {
            return CallbackResponse::Failed;
        },
        Some(p) => p,
    };
    let kind = match Reaction::from_id(p) {
        None => {
            return CallbackResponse::Failed;
        },
        Some(k) => k,
    };
    match toggle_reaction(text, annotations, kind, user_id) {
        Err(_) => CallbackResponse::Failed,
        Ok(o) => {
            let ack: String = if o.added {
                kind.get_emoji().to_owned()
            } else {
                "\u{274e}".to_owned()
            };
            CallbackResponse::Toggled(o, ack)
        },
    }
}

// ---------------------------------------------------------------------
// The summary flow
// ---------------------------------------------------------------------

/// Whether a reply target is a reaction message this bot authored: the
/// author must be this bot and the text must carry the marker.
pub fn is_reaction_message(author_is_this_bot: bool, text: &str) -> (r: bool)
    ensures
        r == (author_is_this_bot && text@.contains(marker_char())),
{
    author_is_this_bot && contains_char(text, '\u{034f}')
}

/// The second decision of the summary flow, after the reply target is
/// known.
pub enum ShowStep {
    /// The target is no reaction message of this bot: reply with this
    /// refusal and stop.
    Refuse(String),
    /// Decode the target and list who reacted.
    Summarize,
}

/// Decides whether a summary target qualifies: it must be a message
/// this bot authored that still carries the marker.
pub fn handle_show_target(author_is_this_bot: bool, text: &str) -> (r: ShowStep)
    ensures
        match r {
            ShowStep::Refuse(t) => !(author_is_this_bot && text@.contains(marker_char())) && t@
                == show_refusal(),
            ShowStep::Summarize => author_is_this_bot && text@.contains(marker_char()),
        },
{
    if is_reaction_message(author_is_this_bot, text) {
        ShowStep::Summarize
    } else {
        ShowStep::Refuse("You can only use /s to reply to a reaction message.".to_owned())
    }
}

/// The kinds with votes and their voters, in catalog display order.
pub fn summary_votes(s: &ReactionState) -> (r: Vec<(Reaction, Vec<UserId>)>)
    ensures
        r@.map_values(|p: (Reaction, Vec<UserId>)| (p.0, p.1@)) == spec_nonempty_pairs(
            s.entries_seq(),
            display_order(),
        ),
{
    let ghost e = s.entries_seq();
    let kinds = all_kinds();
    let mut out: Vec<(Reaction, Vec<UserId>)> = Vec::new();
    let mut i: usize = 0;
    while i < kinds.len()
        invariant
            0 <= i <= kinds.len(),
            kinds@ == display_order(),
            e == s.entries_seq(),
            out@.map_values(|p: (Reaction, Vec<UserId>)| (p.0, p.1@)) == spec_nonempty_pairs(
                e,
                display_order().take(i as int),
            ),
        decreases kinds.len() - i,
    {
        let k = kinds[i];
        let votes = s.votes_for(k);
        let ghost prev = out@.map_values(|p: (Reaction, Vec<UserId>)| (p.0, p.1@));
        proof {
            assert(display_order().take(i as int + 1) =~= display_order().take(i as int).push(
                display_order()[i as int],
            ));
            lemma_nonempty_pairs_snoc(e, display_order().take(i as int), k);
        }
        if votes.len() > 0 {
            out.push((k, votes));
            proof {
                assert(out@.map_values(|p: (Reaction, Vec<UserId>)| (p.0, p.1@)) =~= prev + seq![
                    (k, spec_votes(e, k)),
                ]);
            }
        } else {
            proof {
                assert(prev + Seq::<(Reaction, Seq<UserId>)>::empty() =~= prev);
            }
        }
        i = i + 1;
    }
    proof {
        assert(display_order().take(i as int) =~= display_order());
    }
    out
}

/// A resolved display name, or the placeholder when the directory
/// lookup failed: one voter's failed lookup never aborts the summary.
pub fn display_name_or_placeholder(name: Option<String>) -> (r: String)
    ensures
        match name {
            Some(n) => r@ == n@,
            None => r@ == placeholder_name(),
        },
{
    match name {
        Some(n) => n,
        None => "(unknown)".to_owned(),
    }
}

/// One summary line: the kind's glyph, a separator dash, and the
/// comma-joined voter names.
pub open spec fn spec_summary_line(k: Reaction, names: Seq<Seq<char>>) -> Seq<char> {
    spec_emoji(k) + seq![' ', '\u{2014}', ' '] + join_with(names, seq![',', ' '])
}

/// Renders one summary line.
pub fn summary_line(k: Reaction, names: &Vec<String>) -> (r: String)
    ensures
        r@ == spec_summary_line(k, names@.map_values(|n: String| n@)),
{
    let mut out = String::new();
    out.append(k.get_emoji());
    out.append(" \u{2014} ");
    let joined = join_strings(names, ", ");
    out.append(joined.as_str());
    proof {
        reveal_strlit(" \u{2014} ");
        reveal_strlit(", ");
        assert(" \u{2014} "@ =~= seq![' ', '\u{2014}', ' ']);
        assert(", "@ =~= seq![',', ' ']);
        assert(out@ =~= spec_summary_line(k, names@.map_values(|n: String| n@)));
    }
    out
}

/// The reply of the summary flow.
pub enum SummaryReply {
    /// No kind has votes: this fixed notice, as markdown.
    NoVotes(String),
    /// The newline-joined summary lines, as plain text.
    Lines(String),
}

/// Assembles the summary reply from the rendered lines, in the order
/// they were rendered (the caller renders them in catalog display
/// order, one per kind with votes).
pub fn summary_reply(lines: &Vec<String>) -> (r: SummaryReply)
    ensures
        match r {
            SummaryReply::NoVotes(t) => lines@.len() == 0 && t@ == no_reactions_text(),
            SummaryReply::Lines(t) => lines@.len() > 0 && t@ == join_with(
                lines@.map_values(|l: String| l@),
                seq!['\n'],
            ),
        },
{
    if lines.len() == 0 {
        SummaryReply::NoVotes("_No one reacted to this message\\._".to_owned())
    } else {
        let joined = join_strings(lines, "\n");
        proof {
            reveal_strlit("\n");
            assert("\n"@ =~= seq!['\n']);
        }
        SummaryReply::Lines(joined)
    }
}

// ---------------------------------------------------------------------
// The inline flow
// ---------------------------------------------------------------------

/// One offered inline result: a sticker that, when chosen, publishes a
/// reaction message pre-seeded with one vote of this kind from the
/// querying user.
pub struct InlineItem {
    /// The result identifier: the kind's stable identifier.
    pub result_id: String,
    /// The platform identifier of the kind's sticker.
    pub sticker_id: String,
    /// The markdown source of the pre-seeded reaction message.
    pub message: String,
    /// The keyboard of the pre-seeded state.
    pub keyboard: Vec<Control>,
}

/// The platform sticker identifier shown for each kind.
pub open spec fn spec_sticker(k: Reaction) -> Seq<char> {
    match k {
        Reaction::Laugh => "CAACAgEAAx0CVdUh8wADBF_6BFDjvhQPJk_HcwTJef5gtdaGAAKyAwACHnNXBNRqRQfXrnlvHgQ"@,
        Reaction::Anger => "CAACAgEAAx0CVdUh8wADBV_6BFmPXfkLjgKYDMsNnexNwyikAAKzAwACHnNXBNHDlDvdTaO_HgQ"@,
        Reaction::Heart => "CAACAgEAAx0CVdUh8wADA1_6BDsyavcY6NBOb1SyCQAB4qAMSQACsQMAAh5zVwRIfhjCdqiVrh4E"@,
        Reaction::Up => "CAACAgEAAx0CVdUh8wADB1_6BHoNtTO6WYQNR_uyIMSMaA-aAAK1AwACHnNXBHHZPfRvq2x6HgQ"@,
        Reaction::Down => "CAACAgEAAx0CVdUh8wADB1_6BHoNtTO6WYQNR_uyIMSMaA-aAAK1AwACHnNXBHHZPfRvq2x6HgQ"@,
        Reaction::Sad => "CAACAgEAAx0CVdUh8wADBl_6BGgLYALkCOfWR8cIYmC45_3sAAK0AwACHnNXBOzFJW9pN6veHgQ"@,
    }
}

/// The sticker identifier of this kind.
fn sticker_id(k: Reaction) -> (r: &'static str)
    ensures
        r@ == spec_sticker(k),
{
    match k {
        Reaction::Laugh => "CAACAgEAAx0CVdUh8wADBF_6BFDjvhQPJk_HcwTJef5gtdaGAAKyAwACHnNXBNRqRQfXrnlvHgQ",
        Reaction::Anger => "CAACAgEAAx0CVdUh8wADBV_6BFmPXfkLjgKYDMsNnexNwyikAAKzAwACHnNXBNHDlDvdTaO_HgQ",
        Reaction::Heart => "CAACAgEAAx0CVdUh8wADA1_6BDsyavcY6NBOb1SyCQAB4qAMSQACsQMAAh5zVwRIfhjCdqiVrh4E",
        Reaction::Up => "CAACAgEAAx0CVdUh8wADB1_6BHoNtTO6WYQNR_uyIMSMaA-aAAK1AwACHnNXBHHZPfRvq2x6HgQ",
        Reaction::Down => "CAACAgEAAx0CVdUh8wADB1_6BHoNtTO6WYQNR_uyIMSMaA-aAAK1AwACHnNXBHHZPfRvq2x6HgQ",
        Reaction::Sad => "CAACAgEAAx0CVdUh8wADBl_6BGgLYALkCOfWR8cIYmC45_3sAAK0AwACHnNXBOzFJW9pN6veHgQ",
    }
}

/// The entry list of a message pre-seeded with one vote.
pub open spec fn spec_seeded(k: Reaction, u: UserId) -> Entries {
    seq![(k, seq![u])]
}

/// Builds the inline results of a querying user: one per kind, in
/// catalog display order, each offering a reaction message pre-seeded
/// with that user's vote of that kind.
pub fn handle_inline_query(user_id: UserId) -> (r: Vec<InlineItem>)
    ensures
        r@.len() == display_order().len(),
        forall|i: int| 0 <= i < r@.len() ==> {
            let k = display_order()[i];
            let item = #[trigger] r@[i];
            &&& item.result_id@ == spec_id(k)
            &&& item.sticker_id@ == spec_sticker(k)
            &&& item.message@ == spec_enc_message(spec_seeded(k, user_id))
            &&& keyboard_ok(item.keyboard@, spec_seeded(k, user_id))
        },
{
    let kinds = all_kinds();
    let mut out: Vec<InlineItem> = Vec::new();
    let mut i: usize = 0;
    while i < kinds.len()
        invariant
            0 <= i <= kinds.len(),
            kinds@ == display_order(),
            out@.len() == i,
            forall|j: int| 0 <= j < i ==> {
                let k = display_order()[j];
                let item = #[trigger] out@[j];
                &&& item.result_id@ == spec_id(k)
                &&& item.sticker_id@ == spec_sticker(k)
                &&& item.message@ == spec_enc_message(spec_seeded(k, user_id))
                &&& keyboard_ok(item.keyboard@, spec_seeded(k, user_id))
            },
        decreases kinds.len() - i,
    {
        let k = kinds[i];
        let mut st = ReactionState::new();
        let _ = st.toggle(k, user_id);
        proof {
            assert(st.entries_seq() =~= spec_seeded(k, user_id)) by {
                assert(crate::state::kinds_of(Seq::<(Reaction, Seq<UserId>)>::empty())
                    =~= Seq::<Reaction>::empty());
                assert(Seq::<(Reaction, Seq<UserId>)>::empty().push((k, seq![user_id]))
                    =~= spec_seeded(k, user_id));
            }
        }
        let enc = encode(&st);
        let keyboard = create_reaction_keyboard(&st);
        let item = InlineItem {
            result_id: k.get_id().to_owned(),
            sticker_id: sticker_id(k).to_owned(),
            message: enc.message,
            keyboard,
        };
        out.push(item);
        i = i + 1;
    }
    out
}

} // verus!
