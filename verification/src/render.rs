//! The keyboard renderer: one selectable control per catalog kind, in
//! the fixed display order, labeled with the kind's glyph and, when the
//! kind has votes, the vote count. A control's action payload is the
//! kind's stable identifier, which the callback flow resolves back
//! through the catalog.

use vstd::prelude::*;

use crate::catalog::Reaction;
use crate::catalog::all_kinds;
use crate::catalog::display_order;
use crate::catalog::spec_emoji;
use crate::catalog::spec_id;
use crate::decimal::dec_str;
use crate::decimal::format_u64;
use crate::state::Entries;
use crate::state::ReactionState;
use crate::state::spec_votes;

verus! {

/// One selectable reaction control.
pub struct Control {
    /// What the control shows: the glyph, with the count when non-zero.
    pub label: String,
    /// What a press sends back: the kind's stable identifier.
    pub payload: String,
}

/// The label of one control: the bare glyph while the kind has no
/// votes, the glyph and the count otherwise.
pub open spec fn spec_label(e: Entries, k: Reaction) -> Seq<char> {
    if spec_votes(e, k).len() > 0 {
        spec_emoji(k) + seq![' '] + dec_str(spec_votes(e, k).len())
    } else {
        spec_emoji(k)
    }
}

/// What a rendered keyboard of a state looks like: one control per
/// kind, in catalog display order, with that kind's label and payload.
pub open spec fn keyboard_ok(kb: Seq<Control>, e: Entries) -> bool {
    &&& kb.len() == display_order().len()
    &&& forall|i: int| 0 <= i < kb.len() ==> (#[trigger] kb[i]).payload@ == spec_id(
        display_order()[i],
    ) && kb[i].label@ == spec_label(e, display_order()[i])
}

/// Renders the reaction keyboard of a state: one control per kind, in
/// catalog display order whatever order the state stores its entries
/// in, each carrying its kind's identifier as the press payload.
pub fn create_reaction_keyboard(s: &ReactionState) -> (r: Vec<Control>)
    ensures
        keyboard_ok(r@, s.entries_seq()),
{
    let ghost e = s.entries_seq();
    let kinds = all_kinds();
    let mut out: Vec<Control> = Vec::new();
    let mut i: usize = 0;
    while i < kinds.len()
        invariant
            0 <= i <= kinds.len(),
            kinds@ == display_order(),
            e == s.entries_seq(),
            out@.len() == i,
            forall|j: int| 0 <= j < i ==> (#[trigger] out@[j]).payload@ == spec_id(
                display_order()[j],
            ) && out@[j].label@ == spec_label(e, display_order()[j]),
        decreases kinds.len() - i,
    {
        let k = kinds[i];
        let votes = s.votes_for(k);
        let mut label = String::new();
        label.append(k.get_emoji());
        if votes.len() > 0 {
            label.append(" ");
            let count = format_u64(votes.len() as u64);
            label.append(count.as_str());
            proof {
                reveal_strlit(" ");
                assert(" "@ =~= seq![' ']);
                assert(label@ =~= spec_label(e, k));
            }
        } else {
            proof {
                assert(label@ =~= spec_label(e, k));
            }
        }
        let payload = k.get_id().to_owned();
        out.push(Control { label, payload });
        i = i + 1;
    }
    out
}

} // verus!
