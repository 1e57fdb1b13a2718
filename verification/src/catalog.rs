//! The reaction catalog: the closed set of reaction kinds, each with a
//! stable lowercase identifier (the wire format of the state codec) and a
//! display glyph, plus the fixed display order used by the renderer.

use vstd::prelude::*;

use crate::text::str_eq;

verus! {

/// One reaction kind of the fixed catalog.
#[derive(Copy, Clone, PartialEq, Eq, Structural, Debug)]
pub enum Reaction {
    Laugh,
    Anger,
    Heart,
    Up,
    Down,
    Sad,
}

/// The fixed order in which reaction controls and tallies are displayed.
/// It is independent of the declaration order of the enum and must stay
/// stable so button positions do not move across edits.
pub open spec fn display_order() -> Seq<Reaction> {
    seq![
        Reaction::Heart,
        Reaction::Laugh,
        Reaction::Anger,
        Reaction::Sad,
        Reaction::Up,
        Reaction::Down,
    ]
}

/// Position of a kind in the display order.
pub open spec fn display_pos(k: Reaction) -> int {
    match k {
        Reaction::Heart => 0,
        Reaction::Laugh => 1,
        Reaction::Anger => 2,
        Reaction::Sad => 3,
        Reaction::Up => 4,
        Reaction::Down => 5,
    }
}

/// The stable lowercase identifier of a kind: the name under which its
/// votes are serialized. This is a wire format and must never change.
pub open spec fn spec_id(k: Reaction) -> Seq<char> {
    match k {
        Reaction::Laugh => "laugh"@,
        Reaction::Anger => "anger"@,
        Reaction::Heart => "love"@,
        Reaction::Up => "up"@,
        Reaction::Down => "down"@,
        Reaction::Sad => "sad"@,
    }
}

/// The display glyph (emoji) of a kind.
pub open spec fn spec_emoji(k: Reaction) -> Seq<char> {
    match k {
        Reaction::Heart => "\u{2764}\u{fe0f}"@,
        Reaction::Laugh => "\u{1f602}"@,
        Reaction::Anger => "\u{1f621}"@,
        Reaction::Sad => "\u{1f62d}"@,
        Reaction::Up => "\u{1f44d}"@,
        Reaction::Down => "\u{1f44e}"@,
    }
}

/// The kind whose identifier is `s`, if any. An identifier that resolves
/// to no kind is a decode error for the codec, never a panic.
pub open spec fn spec_kind_of_id(s: Seq<char>) -> Option<Reaction> {
    if s == "love"@ {
        Some(Reaction::Heart)
    } else if s == "laugh"@ {
        Some(Reaction::Laugh)
    } else if s == "anger"@ {
        Some(Reaction::Anger)
    } else if s == "sad"@ {
        Some(Reaction::Sad)
    } else if s == "up"@ {
        Some(Reaction::Up)
    } else if s == "down"@ {
        Some(Reaction::Down)
    } else {
        None
    }
}

/// All kinds, in display order.
pub fn all_kinds() -> (r: Vec<Reaction>)
    ensures
        r@ == display_order(),
{
    let mut v: Vec<Reaction> = Vec::new();
    v.push(Reaction::Heart);
    v.push(Reaction::Laugh);
    v.push(Reaction::Anger);
    v.push(Reaction::Sad);
    v.push(Reaction::Up);
    v.push(Reaction::Down);
    proof {
        assert(v@ =~= display_order());
    }
    v
}

impl Reaction {
    /// The stable identifier of this kind.
    pub fn get_id(&self) -> (r: &str)
        ensures
            r@ == spec_id(*self),
    {
        match self {
            Reaction::Laugh => "laugh",
            Reaction::Anger => "anger",
            Reaction::Heart => "love",
            Reaction::Up => "up",
            Reaction::Down => "down",
            Reaction::Sad => "sad",
        }
    }

    /// The display glyph of this kind.
    pub fn get_emoji(&self) -> (r: &str)
        ensures
            r@ == spec_emoji(*self),
    {
        match self {
            Reaction::Heart => "\u{2764}\u{fe0f}",
            Reaction::Laugh => "\u{1f602}",
            Reaction::Anger => "\u{1f621}",
            Reaction::Sad => "\u{1f62d}",
            Reaction::Up => "\u{1f44d}",
            Reaction::Down => "\u{1f44e}",
        }
    }

    /// Resolve an identifier back to its kind.
    pub fn from_id(s: &str) -> (r: Option<Reaction>)
        ensures
            r == spec_kind_of_id(s@),
    {
        if str_eq(s, "love") {
            Some(Reaction::Heart)
        } else if str_eq(s, "laugh") {
            Some(Reaction::Laugh)
        } else if str_eq(s, "anger") {
            Some(Reaction::Anger)
        } else if str_eq(s, "sad") {
            Some(Reaction::Sad)
        } else if str_eq(s, "up") {
            Some(Reaction::Up)
        } else if str_eq(s, "down") {
            Some(Reaction::Down)
        } else {
            None
        }
    }
}

/// The identifier-to-kind mapping is a total bijection over the catalog:
/// resolving the identifier of any kind yields that kind back.
pub proof fn lemma_id_bijection(k: Reaction)
    ensures
        spec_kind_of_id(spec_id(k)) == Some(k),
{
    reveal_strlit("love");
    reveal_strlit("laugh");
    reveal_strlit("anger");
    reveal_strlit("sad");
    reveal_strlit("up");
    reveal_strlit("down");
    assert("love"@.len() == 4 && "laugh"@.len() == 5 && "anger"@.len() == 5 && "sad"@.len() == 3
        && "up"@.len() == 2 && "down"@.len() == 4);
    assert("laugh"@[0] == 'l' && "anger"@[0] == 'a');
    assert("laugh"@ != "anger"@);
    assert("love"@[0] == 'l' && "down"@[0] == 'd');
    assert("love"@ != "down"@);
}

/// Identifiers are non-empty and never contain a character the codec uses
/// as a delimiter.
pub proof fn lemma_id_chars(k: Reaction)
    ensures
        spec_id(k).len() > 0,
        !spec_id(k).contains('='),
        !spec_id(k).contains('&'),
        !spec_id(k).contains(','),
{
    reveal_strlit("love");
    reveal_strlit("laugh");
    reveal_strlit("anger");
    reveal_strlit("sad");
    reveal_strlit("up");
    reveal_strlit("down");
}

/// Every kind occurs in the display order, at its display position.
pub proof fn lemma_display_order(k: Reaction)
    ensures
        display_order().len() == 6,
        0 <= display_pos(k) < 6,
        display_order()[display_pos(k)] == k,
        display_order().contains(k),
{
    assert(display_order()[display_pos(k)] == k);
}

} // verus!
