//! The state codec: the vote mapping of a message is serialized into a
//! hidden link annotation whose target URL carries one query parameter
//! per reaction kind, and recovered from the message's annotations. The
//! visible text is a zero-width marker plus a regenerated tally; the
//! link target, not the prose, is the authoritative store.
//!
//! Wire format of the link target:
//! `https://reaxnbot.dev/reactions?<id>=<uid>,<uid>&<id>=<uid>`, with
//! the kinds in catalog display order and each voter as a decimal
//! integer. The URL is never fetched; it is only a data carrier.

use vstd::prelude::*;

use crate::catalog::Reaction;
use crate::catalog::all_kinds;
use crate::catalog::display_order;
use crate::catalog::spec_emoji;
use crate::catalog::spec_id;
use crate::catalog::spec_kind_of_id;
use crate::decimal::dec_i32;
use crate::decimal::dec_str;
use crate::decimal::format_i32;
use crate::decimal::parse_i32;
use crate::decimal::spec_parse_i32;
use crate::state::Entries;
use crate::state::ReactionState;
use crate::state::UserId;
use crate::state::find_index;
use crate::state::spec_kind_index;
use crate::state::spec_votes;
use crate::text::contains_char;
use crate::text::find_char;
use crate::text::join_with;
use crate::text::lemma_join_push;
use crate::text::spec_find;
use crate::text::split_on;
use crate::text::split_str;

verus! {

/// The zero-width marker that identifies a reaction message.
pub open spec fn marker_char() -> char {
    '\u{034f}'
}

/// The fixed host and path of the encoded-state link target.
pub open spec fn url_prefix() -> Seq<char> {
    "https://reaxnbot.dev/reactions"@
}

/// Whether a link annotation target carries this bot's encoded state:
/// it is exactly the fixed host and path, or that followed by a query.
/// Any other target is an unrelated link and is ignored.
pub open spec fn ann_matches(u: Seq<char>) -> bool {
    &&& u.len() >= url_prefix().len()
    &&& u.take(url_prefix().len() as int) == url_prefix()
    &&& (u.len() == url_prefix().len() || u[url_prefix().len() as int] == '?')
}

/// The query part of a matching annotation target.
pub open spec fn ann_query(u: Seq<char>) -> Seq<char> {
    if u.len() <= url_prefix().len() + 1 {
        Seq::<char>::empty()
    } else {
        u.skip(url_prefix().len() as int + 1)
    }
}

// ---------------------------------------------------------------------
// Encoding
// ---------------------------------------------------------------------

/// The query parameter of one kind: its identifier, `=`, and the votes
/// as comma-joined decimals in insertion order.
pub open spec fn spec_param(e: Entries, k: Reaction) -> Seq<char> {
    spec_id(k) + seq!['='] + join_with(
        spec_votes(e, k).map_values(|u: UserId| dec_i32(u as int)),
        seq![','],
    )
}

/// The query parameters of the kinds of `ks` that have votes, in order.
pub open spec fn spec_params(e: Entries, ks: Seq<Reaction>) -> Seq<Seq<char>>
    decreases ks.len(),
{
    if ks.len() == 0 {
        Seq::<Seq<char>>::empty()
    } else {
        (if spec_votes(e, ks[0]).len() > 0 {
            seq![spec_param(e, ks[0])]
        } else {
            Seq::<Seq<char>>::empty()
        }) + spec_params(e, ks.skip(1))
    }
}

/// The tally of one kind: its glyph and the bolded vote count.
pub open spec fn spec_tally(e: Entries, k: Reaction) -> Seq<char> {
    spec_emoji(k) + seq![' ', '*'] + dec_str(spec_votes(e, k).len()) + seq!['*']
}

/// The tallies of the kinds of `ks` that have votes, in order.
pub open spec fn spec_tallies(e: Entries, ks: Seq<Reaction>) -> Seq<Seq<char>>
    decreases ks.len(),
{
    if ks.len() == 0 {
        Seq::<Seq<char>>::empty()
    } else {
        (if spec_votes(e, ks[0]).len() > 0 {
            seq![spec_tally(e, ks[0])]
        } else {
            Seq::<Seq<char>>::empty()
        }) + spec_tallies(e, ks.skip(1))
    }
}

/// The full query of a state: its parameters joined with `&`. Kinds
/// without votes are filtered out, so an all-empty state has an empty
/// query.
pub open spec fn spec_enc_query(e: Entries) -> Seq<char> {
    join_with(spec_params(e, display_order()), seq!['&'])
}

/// The link target of a state.
pub open spec fn spec_enc_url(e: Entries) -> Seq<char> {
    url_prefix() + seq!['?'] + spec_enc_query(e)
}

/// The visible tally text of a state: the non-empty kinds' tallies
/// joined with two spaces, in display order.
pub open spec fn spec_enc_tally(e: Entries) -> Seq<char> {
    join_with(spec_tallies(e, display_order()), seq![' ', ' '])
}

/// The markdown source of a reaction message: the marker as the link
/// text of the encoded-state target, then a space and the tally.
pub open spec fn spec_enc_message(e: Entries) -> Seq<char> {
    seq!['['] + seq![marker_char()] + seq![']', '('] + spec_enc_url(e) + seq![')', ' ']
        + spec_enc_tally(e)
}

// ---------------------------------------------------------------------
// Decoding
// ---------------------------------------------------------------------

/// A matching annotation carried a query key that no catalog identifier
/// resolves, or a vote token that is no user identifier. A partially
/// decoded state would silently drop voters, so decoding aborts.
#[derive(Clone, Copy, PartialEq, Eq, Structural, Debug)]
pub struct CorruptState;

/// Parses a list of vote tokens; one bad token corrupts the whole list.
pub open spec fn spec_parse_users(tokens: Seq<Seq<char>>) -> Option<Seq<UserId>>
    decreases tokens.len(),
{
    if tokens.len() == 0 {
        Some(Seq::<UserId>::empty())
    } else {
        match spec_parse_i32(tokens[0]) {
            None => None,
            Some(u) => match spec_parse_users(tokens.skip(1)) {
                None => None,
                Some(rest) => Some(seq![u] + rest),
            },
        }
    }
}

/// Parses one `key=value` query segment into a kind and its votes.
pub open spec fn spec_parse_pair(seg: Seq<char>) -> Option<(Reaction, Seq<UserId>)> {
    match spec_find(seg, '=') {
        None => None,
        Some(i) => {
            let key = seg.take(i);
            let val = seg.skip(i + 1);
            match spec_kind_of_id(key) {
                None => None,
                Some(k) => match spec_parse_users(split_on(val, ',')) {
                    None => None,
                    Some(us) => Some((k, us)),
                },
            }
        },
    }
}

/// Parses a list of query segments; one bad segment corrupts the list.
pub open spec fn spec_parse_pairs(segs: Seq<Seq<char>>) -> Option<Seq<(Reaction, Seq<UserId>)>>
    decreases segs.len(),
{
    if segs.len() == 0 {
        Some(Seq::<(Reaction, Seq<UserId>)>::empty())
    } else {
        match spec_parse_pair(segs[0]) {
            None => None,
            Some(p) => match spec_parse_pairs(segs.skip(1)) {
                None => None,
                Some(rest) => Some(seq![p] + rest),
            },
        }
    }
}

/// The kind/votes pairs of a query string: an empty query has none;
/// otherwise every `&`-separated segment must parse.
pub open spec fn spec_query_pairs(q: Seq<char>) -> Option<Seq<(Reaction, Seq<UserId>)>> {
    if q.len() == 0 {
        Some(Seq::<(Reaction, Seq<UserId>)>::empty())
    } else {
        spec_parse_pairs(split_on(q, '&'))
    }
}

/// Adds one vote to an entry list unless it is already present: the
/// union step of merging decoded annotations.
pub open spec fn spec_add_vote(e: Entries, k: Reaction, u: UserId) -> Entries {
    match spec_kind_index(e, k) {
        None => e.push((k, seq![u])),
        Some(i) => if e[i].1.contains(u) {
            e
        } else {
            e.update(i, (e[i].0, e[i].1.push(u)))
        },
    }
}

/// Adds a list of votes of one kind, in order.
pub open spec fn spec_add_votes(e: Entries, k: Reaction, us: Seq<UserId>) -> Entries
    decreases us.len(),
{
    if us.len() == 0 {
        e
    } else {
        spec_add_votes(spec_add_vote(e, k, us[0]), k, us.skip(1))
    }
}

/// Merges a list of decoded pairs into an entry list, in order.
pub open spec fn spec_apply_pairs(e: Entries, pairs: Seq<(Reaction, Seq<UserId>)>) -> Entries
    decreases pairs.len(),
{
    if pairs.len() == 0 {
        e
    } else {
        spec_apply_pairs(spec_add_votes(e, pairs[0].0, pairs[0].1), pairs.skip(1))
    }
}

/// What one annotation contributes: an unrelated target changes
/// nothing; a matching target merges its pairs, or corrupts the decode.
pub open spec fn spec_apply_ann(e: Entries, u: Seq<char>) -> Option<Entries> {
    if !ann_matches(u) {
        Some(e)
    } else {
        match spec_query_pairs(ann_query(u)) {
            None => None,
            Some(ps) => Some(spec_apply_pairs(e, ps)),
        }
    }
}

/// Folds all annotations of a message, merging matching ones by union.
pub open spec fn spec_decode_anns(e: Entries, anns: Seq<Seq<char>>) -> Option<Entries>
    decreases anns.len(),
{
    if anns.len() == 0 {
        Some(e)
    } else {
        match spec_apply_ann(e, anns[0]) {
            None => None,
            Some(e1) => spec_decode_anns(e1, anns.skip(1)),
        }
    }
}

/// Whether any annotation target carries encoded state.
pub open spec fn any_ann_matches(anns: Seq<Seq<char>>) -> bool {
    exists|i: int| 0 <= i < anns.len() && ann_matches(#[trigger] anns[i])
}

/// The decode relation of a whole message, over its visible text and
/// its link annotation targets. A matching annotation yields the merged
/// state; the bare marker yields the empty state; anything else is not
/// a reaction message (`Ok(None)`); a matching annotation that fails to
/// parse corrupts the decode.
pub open spec fn spec_decode(text: Seq<char>, anns: Seq<Seq<char>>) -> Result<
    Option<Entries>,
    CorruptState,
> {
    match spec_decode_anns(Seq::<(Reaction, Seq<UserId>)>::empty(), anns) {
        None => Err(CorruptState),
        Some(e) => if any_ann_matches(anns) {
            Ok(Some(e))
        } else if text.contains(marker_char()) {
            Ok(Some(Seq::<(Reaction, Seq<UserId>)>::empty()))
        } else {
            Ok(None)
        },
    }
}

// ---------------------------------------------------------------------
// The encoder
// ---------------------------------------------------------------------

/// The encoded form of a state: the link target holding the data, the
/// visible tally, and the full markdown message source.
pub struct Encoded {
    pub url: String,
    pub tally: String,
    pub message: String,
}

/// Appending a kind to the list extends the parameter and tally lists
/// by that kind's entries exactly when it has votes.
proof fn lemma_enc_snoc(e: Entries, ks: Seq<Reaction>, k: Reaction)
    ensures
        spec_params(e, ks.push(k)) == spec_params(e, ks) + (if spec_votes(e, k).len() > 0 {
            seq![spec_param(e, k)]
        } else {
            Seq::<Seq<char>>::empty()
        }),
        spec_tallies(e, ks.push(k)) == spec_tallies(e, ks) + (if spec_votes(e, k).len() > 0 {
            seq![spec_tally(e, k)]
        } else {
            Seq::<Seq<char>>::empty()
        }),
    decreases ks.len(),
{
    reveal_with_fuel(spec_params, 2);
    reveal_with_fuel(spec_tallies, 2);
    let p = ks.push(k);
    if ks.len() == 0 {
        assert(p[0] == k);
        assert(p.skip(1) =~= Seq::<Reaction>::empty());
        assert(spec_params(e, p) =~= spec_params(e, ks) + (if spec_votes(e, k).len() > 0 {
            seq![spec_param(e, k)]
        } else {
            Seq::<Seq<char>>::empty()
        }));
        assert(spec_tallies(e, p) =~= spec_tallies(e, ks) + (if spec_votes(e, k).len() > 0 {
            seq![spec_tally(e, k)]
        } else {
            Seq::<Seq<char>>::empty()
        }));
    } else {
        assert(p[0] == ks[0]);
        assert(p.skip(1) =~= ks.skip(1).push(k));
        lemma_enc_snoc(e, ks.skip(1), k);
        assert(spec_params(e, p) =~= spec_params(e, ks) + (if spec_votes(e, k).len() > 0 {
            seq![spec_param(e, k)]
        } else {
            Seq::<Seq<char>>::empty()
        }));
        assert(spec_tallies(e, p) =~= spec_tallies(e, ks) + (if spec_votes(e, k).len() > 0 {
            seq![spec_tally(e, k)]
        } else {
            Seq::<Seq<char>>::empty()
        }));
    }
}

/// The comma-joined decimal votes of one kind.
fn render_votes(votes: &Vec<UserId>) -> (r: String)
    ensures
        r@ == join_with(votes@.map_values(|u: UserId| dec_i32(u as int)), seq![',']),
{
    let ghost model = votes@.map_values(|u: UserId| dec_i32(u as int));
    let mut out = String::new();
    let mut i: usize = 0;
    while i < votes.len()
        invariant
            0 <= i <= votes.len(),
            model == votes@.map_values(|u: UserId| dec_i32(u as int)),
            model.len() == votes@.len(),
            out@ == join_with(model.take(i as int), seq![',']),
        decreases votes.len() - i,
    {
        if i > 0 {
            out.append(",");
            proof {
                reveal_strlit(",");
                assert(","@ =~= seq![',']);
            }
        }
        let piece = format_i32(votes[i]);
        out.append(piece.as_str());
        proof {
            assert(model.take(i as int + 1) =~= model.take(i as int).push(model[i as int]));
            lemma_join_push(model.take(i as int), seq![','], model[i as int]);
        }
        i = i + 1;
    }
    proof {
        assert(model.take(i as int) =~= model);
    }
    out
}

/// Encodes a state: the authoritative link target, the visible tally,
/// and the markdown message source, all regenerated from the state in
/// catalog display order with empty kinds filtered out.
pub fn encode(s: &ReactionState) -> (r: Encoded)
    ensures
        r.url@ == spec_enc_url(s.entries_seq()),
        r.tally@ == spec_enc_tally(s.entries_seq()),
        r.message@ == spec_enc_message(s.entries_seq()),
{
    let ghost e = s.entries_seq();
    let kinds = all_kinds();
    let mut params: Vec<String> = Vec::new();
    let mut tallies: Vec<String> = Vec::new();
    let mut i: usize = 0;
    while i < kinds.len()
        invariant
            0 <= i <= kinds.len(),
            kinds@ == display_order(),
            e == s.entries_seq(),
            params@.map_values(|p: String| p@) == spec_params(e, display_order().take(i as int)),
            tallies@.map_values(|p: String| p@) == spec_tallies(
                e,
                display_order().take(i as int),
            ),
        decreases kinds.len() - i,
    {
        let k = kinds[i];
        let votes = s.votes_for(k);
        let ghost prev_params = params@.map_values(|p: String| p@);
        let ghost prev_tallies = tallies@.map_values(|p: String| p@);
        if votes.len() > 0 {
            let mut param = String::new();
            param.append(k.get_id());
            param.append("=");
            let joined = render_votes(&votes);
            param.append(joined.as_str());
            proof {
                reveal_strlit("=");
                assert("="@ =~= seq!['=']);
                assert(param@ =~= spec_param(e, k));
            }
            params.push(param);

            let mut tally = String::new();
            tally.append(k.get_emoji());
            tally.append(" *");
            let count = crate::decimal::format_u64(votes.len() as u64);
            tally.append(count.as_str());
            tally.append("*");
            proof {
                reveal_strlit(" *");
                reveal_strlit("*");
                assert(" *"@ =~= seq![' ', '*']);
                assert("*"@ =~= seq!['*']);
                assert(votes@.len() == spec_votes(e, k).len());
                assert(tally@ =~= spec_tally(e, k));
            }
            tallies.push(tally);
        }
        proof {
            assert(display_order().take(i as int + 1) =~= display_order().take(i as int).push(
                display_order()[i as int],
            ));
            lemma_enc_snoc(e, display_order().take(i as int), k);
            if spec_votes(e, k).len() > 0 {
                assert(params@.map_values(|p: String| p@) =~= prev_params.push(
                    spec_param(e, k),
                ));
                assert(prev_params.push(spec_param(e, k)) =~= prev_params + seq![
                    spec_param(e, k),
                ]);
                assert(tallies@.map_values(|p: String| p@) =~= prev_tallies.push(
                    spec_tally(e, k),
                ));
                assert(prev_tallies.push(spec_tally(e, k)) =~= prev_tallies + seq![
                    spec_tally(e, k),
                ]);
            } else {
                assert(prev_params + Seq::<Seq<char>>::empty() =~= prev_params);
                assert(prev_tallies + Seq::<Seq<char>>::empty() =~= prev_tallies);
            }
        }
        i = i + 1;
    }
    proof {
        assert(display_order().take(i as int) =~= display_order());
    }
    let query = crate::text::join_strings(&params, "&");
    let tally = crate::text::join_strings(&tallies, "  ");
    proof {
        reveal_strlit("&");
        reveal_strlit("  ");
        assert("&"@ =~= seq!['&']);
        assert("  "@ =~= seq![' ', ' ']);
    }
    let mut url = String::new();
    url.append("https://reaxnbot.dev/reactions");
    url.append("?");
    url.append(query.as_str());
    proof {
        reveal_strlit("?");
        assert("?"@ =~= seq!['?']);
        assert(url@ =~= spec_enc_url(e));
    }
    let mut message = String::new();
    message.append("[");
    message.append("\u{034f}");
    message.append("](");
    message.append(url.as_str());
    message.append(") ");
    message.append(tally.as_str());
    proof {
        reveal_strlit("[");
        reveal_strlit("\u{034f}");
        reveal_strlit("](");
        reveal_strlit(") ");
        assert("["@ =~= seq!['[']);
        assert("\u{034f}"@ =~= seq![marker_char()]);
        assert("]("@ =~= seq![']', '(']);
        assert(") "@ =~= seq![')', ' ']);
        assert(message@ =~= spec_enc_message(e));
    }
    Encoded { url, tally, message }
}

// ---------------------------------------------------------------------
// The decoder
// ---------------------------------------------------------------------

impl ReactionState {
    /// Adds one vote unless it is already present: the union step of
    /// merging decoded annotations.
    fn add_vote(&mut self, k: Reaction, u: UserId)
        requires
            old(self).wf(),
        ensures
            final(self).entries_seq() == spec_add_vote(old(self).entries_seq(), k, u),
            final(self).wf(),
    {
        let ghost e0 = self.entries_seq();
        let already = {
            let votes = self.votes_for(k);
            match ReactionState::find_user(&votes, u) {
                Some(_) => true,
                None => false,
            }
        };
        proof {
            crate::state::lemma_find_index_spec(spec_votes(e0, k), u);
            if already {
                assert(spec_votes(e0, k).contains(u));
            } else {
                assert(forall|x: int|
                    0 <= x < spec_votes(e0, k).len() ==> spec_votes(e0, k)[x] != u);
                assert(!spec_votes(e0, k).contains(u));
            }
            crate::state::lemma_find_index_spec(crate::state::kinds_of(e0), k);
        }
        if already {
            proof {
                let i = spec_kind_index(e0, k)->0;
                assert(crate::state::kinds_of(e0)[i] == k);
                assert(e0[i].1 == spec_votes(e0, k));
            }
            return ;
        }
        let _ = self.toggle(k, u);
        proof {
            let e1 = self.entries_seq();
            match spec_kind_index(e0, k) {
                None => {
                    assert(e1 == e0.push((k, seq![u])));
                },
                Some(i) => {
                    assert(crate::state::kinds_of(e0)[i] == k);
                    assert(e0[i].0 == k);
                    let vs = e0[i].1;
                    assert(vs == spec_votes(e0, k));
                    crate::state::lemma_find_index_spec(vs, u);
                    assert(find_index(vs, u) is None) by {
                        if find_index(vs, u) is Some {
                            let x = find_index(vs, u)->0;
                            assert(vs[x] == u);
                            assert(vs.contains(u));
                        }
                    }
                    assert(e1 == e0.update(i, (k, vs.push(u))));
                    assert(!vs.contains(u));
                },
            }
        }
    }

}

/// Parsing vote tokens distributes over concatenation of token lists,
/// with a failing half failing the whole.
proof fn lemma_parse_users_concat(a: Seq<Seq<char>>, b: Seq<Seq<char>>)
    ensures
        spec_parse_users(a + b) == match spec_parse_users(a) {
            None => None::<Seq<UserId>>,
            Some(x) => match spec_parse_users(b) {
                None => None::<Seq<UserId>>,
                Some(y) => Some(x + y),
            },
        },
    decreases a.len(),
{
    if a.len() == 0 {
        assert(a + b =~= b);
        match spec_parse_users(b) {
            None => {},
            Some(y) => {
                assert(Seq::<UserId>::empty() + y =~= y);
            },
        }
    } else {
        assert((a + b)[0] == a[0]);
        assert((a + b).skip(1) =~= a.skip(1) + b);
        lemma_parse_users_concat(a.skip(1), b);
        assert((a + b).len() > 0);
        match spec_parse_i32(a[0]) {
            None => {},
            Some(u) => {
                match spec_parse_users(a.skip(1)) {
                    None => {},
                    Some(x1) => {
                        match spec_parse_users(b) {
                            None => {},
                            Some(y) => {
                                assert(seq![u] + (x1 + y) =~= (seq![u] + x1) + y);
                            },
                        }
                    },
                }
            },
        }
    }
}

/// Parsing one vote token.
proof fn lemma_parse_users_one(t: Seq<char>)
    ensures
        spec_parse_users(seq![t]) == match spec_parse_i32(t) {
            None => None::<Seq<UserId>>,
            Some(u) => Some(seq![u]),
        },
{
    reveal_with_fuel(spec_parse_users, 2);
    assert(seq![t].skip(1) =~= Seq::<Seq<char>>::empty());
    match spec_parse_i32(t) {
        None => {},
        Some(u) => {
            assert(seq![u] + Seq::<UserId>::empty() =~= seq![u]);
        },
    }
}

/// Parsing query segments distributes over concatenation of segment
/// lists, with a failing half failing the whole.
proof fn lemma_parse_pairs_concat(a: Seq<Seq<char>>, b: Seq<Seq<char>>)
    ensures
        spec_parse_pairs(a + b) == match spec_parse_pairs(a) {
            None => None::<Seq<(Reaction, Seq<UserId>)>>,
            Some(x) => match spec_parse_pairs(b) {
                None => None::<Seq<(Reaction, Seq<UserId>)>>,
                Some(y) => Some(x + y),
            },
        },
    decreases a.len(),
{
    if a.len() == 0 {
        assert(a + b =~= b);
        match spec_parse_pairs(b) {
            None => {},
            Some(y) => {
                assert(Seq::<(Reaction, Seq<UserId>)>::empty() + y =~= y);
            },
        }
    } else {
        assert((a + b)[0] == a[0]);
        assert((a + b).skip(1) =~= a.skip(1) + b);
        lemma_parse_pairs_concat(a.skip(1), b);
        match spec_parse_pair(a[0]) {
            None => {},
            Some(p) => {
                match spec_parse_pairs(a.skip(1)) {
                    None => {},
                    Some(x1) => {
                        match spec_parse_pairs(b) {
                            None => {},
                            Some(y) => {
                                assert(seq![p] + (x1 + y) =~= (seq![p] + x1) + y);
                            },
                        }
                    },
                }
            },
        }
    }
}

/// Parsing one query segment.
proof fn lemma_parse_pairs_one(s: Seq<char>)
    ensures
        spec_parse_pairs(seq![s]) == match spec_parse_pair(s) {
            None => None::<Seq<(Reaction, Seq<UserId>)>>,
            Some(p) => Some(seq![p]),
        },
{
    reveal_with_fuel(spec_parse_pairs, 2);
    assert(seq![s].skip(1) =~= Seq::<Seq<char>>::empty());
    match spec_parse_pair(s) {
        None => {},
        Some(p) => {
            assert(seq![p] + Seq::<(Reaction, Seq<UserId>)>::empty() =~= seq![p]);
        },
    }
}

/// Adding votes distributes over concatenation of vote lists.
pub proof fn lemma_add_votes_concat(e: Entries, k: Reaction, a: Seq<UserId>, b: Seq<UserId>)
    ensures
        spec_add_votes(e, k, a + b) == spec_add_votes(spec_add_votes(e, k, a), k, b),
    decreases a.len(),
{
    if a.len() == 0 {
        assert(a + b =~= b);
    } else {
        assert((a + b)[0] == a[0]);
        assert((a + b).skip(1) =~= a.skip(1) + b);
        lemma_add_votes_concat(spec_add_vote(e, k, a[0]), k, a.skip(1), b);
    }
}

/// Merging pairs distributes over concatenation of pair lists.
pub proof fn lemma_apply_pairs_concat(
    e: Entries,
    a: Seq<(Reaction, Seq<UserId>)>,
    b: Seq<(Reaction, Seq<UserId>)>,
)
    ensures
        spec_apply_pairs(e, a + b) == spec_apply_pairs(spec_apply_pairs(e, a), b),
    decreases a.len(),
{
    if a.len() == 0 {
        assert(a + b =~= b);
    } else {
        assert((a + b)[0] == a[0]);
        assert((a + b).skip(1) =~= a.skip(1) + b);
        lemma_apply_pairs_concat(spec_add_votes(e, a[0].0, a[0].1), a.skip(1), b);
    }
}

/// Folding annotations distributes over concatenation of annotation
/// lists, with a corrupt half corrupting the whole.
proof fn lemma_decode_anns_concat(e: Entries, a: Seq<Seq<char>>, b: Seq<Seq<char>>)
    ensures
        spec_decode_anns(e, a + b) == match spec_decode_anns(e, a) {
            None => None::<Entries>,
            Some(e1) => spec_decode_anns(e1, b),
        },
    decreases a.len(),
{
    if a.len() == 0 {
        assert(a + b =~= b);
    } else {
        assert((a + b)[0] == a[0]);
        assert((a + b).skip(1) =~= a.skip(1) + b);
        match spec_apply_ann(e, a[0]) {
            None => {},
            Some(e1) => {
                lemma_decode_anns_concat(e1, a.skip(1), b);
            },
        }
    }
}

/// Folding one annotation.
proof fn lemma_decode_anns_one(e: Entries, u: Seq<char>)
    ensures
        spec_decode_anns(e, seq![u]) == spec_apply_ann(e, u),
{
    reveal_with_fuel(spec_decode_anns, 2);
    assert(seq![u].skip(1) =~= Seq::<Seq<char>>::empty());
}

/// Whether a link target carries this bot's encoded state.
fn url_matches(a: &str) -> (r: bool)
    ensures
        r == ann_matches(a@),
{
    let p = "https://reaxnbot.dev/reactions";
    let pn = p.unicode_len();
    let n = a.unicode_len();
    if n < pn {
        return false;
    }
    let mut i: usize = 0;
    while i < pn
        invariant
            0 <= i <= pn,
            pn == url_prefix().len(),
            p@ == url_prefix(),
            n == a@.len(),
            n >= pn,
            forall|j: int| 0 <= j < i ==> a@[j] == url_prefix()[j],
        decreases pn - i,
    {
        if a.get_char(i) != p.get_char(i) {
            proof {
                if ann_matches(a@) {
                    assert(a@.take(pn as int)[i as int] == url_prefix()[i as int]);
                }
            }
            return false;
        }
        i = i + 1;
    }
    proof {
        assert(a@.take(pn as int) =~= url_prefix());
    }
    if n == pn {
        true
    } else if a.get_char(pn) == '?' {
        true
    } else {
        false
    }
}

/// Merges one annotation target into the state: an unrelated target is
/// skipped; a matching target has its query parsed and its votes added,
/// or corrupts the decode.
#[verifier::loop_isolation(false)]
fn apply_annotation(st: &mut ReactionState, a: &str) -> (r: Result<bool, CorruptState>)
    requires
        old(st).wf(),
    ensures
        match r {
            Ok(m) => {
                &&& m == ann_matches(a@)
                &&& spec_apply_ann(old(st).entries_seq(), a@) == Some(final(st).entries_seq())
                &&& final(st).wf()
            },
            Err(_) => spec_apply_ann(old(st).entries_seq(), a@) is None,
        },
{
    let ghost e0 = st.entries_seq();
    if !url_matches(a) {
        return Ok(false);
    }
    let n = a.unicode_len();
    let pn = "https://reaxnbot.dev/reactions".unicode_len();
    proof {
        assert(n >= pn);
    }
    if n - pn <= 1 {
        proof {
            assert(ann_query(a@) == Seq::<char>::empty());
            assert(spec_apply_ann(e0, a@) == Some(spec_apply_pairs(
                e0,
                Seq::<(Reaction, Seq<UserId>)>::empty(),
            )));
        }
        return Ok(true);
    }
    let q = a.substring_char(pn + 1, n);
    proof {
        assert(q@ =~= a@.skip(pn as int + 1));
        assert(q@ == ann_query(a@));
        assert(q@.len() > 0);
    }
    let segs = split_str(q, '&');
    let ghost sgs = split_on(q@, '&');
    let ghost mut pairs: Seq<(Reaction, Seq<UserId>)> = Seq::empty();
    let mut j: usize = 0;
    while j < segs.len()
        invariant
            0 <= j <= segs.len(),
            segs@.map_values(|t: String| t@) == sgs,
            sgs.len() == segs@.len(),
            spec_parse_pairs(sgs.take(j as int)) == Some(pairs),
            st.entries_seq() == spec_apply_pairs(e0, pairs),
            st.wf(),
            e0 == old(st).entries_seq(),
        decreases segs.len() - j,
    {
        let ghost seg = sgs[j as int];
        proof {
            assert(sgs.take(j as int + 1) =~= sgs.take(j as int) + seq![seg]);
            lemma_parse_pairs_concat(sgs.take(j as int), seq![seg]);
            lemma_parse_pairs_one(seg);
        }
        match parse_pair(segs[j].as_str()) {
            Err(c) => {
                proof {
                    assert(spec_parse_pairs(sgs.take(j as int + 1)) is None);
                    assert(sgs =~= sgs.take(j as int + 1) + sgs.skip(j as int + 1));
                    lemma_parse_pairs_concat(sgs.take(j as int + 1), sgs.skip(j as int + 1));
                    assert(spec_parse_pairs(sgs) is None);
                }
                return Err(c);
            },
            Ok((k, us)) => {
                let ghost e_before = st.entries_seq();
                let mut x: usize = 0;
                while x < us.len()
                    invariant
                        0 <= x <= us.len(),
                        st.wf(),
                        st.entries_seq() == spec_add_votes(e_before, k, us@.take(x as int)),
                    decreases us.len() - x,
                {
                    proof {
                        assert(us@.take(x as int + 1) =~= us@.take(x as int) + seq![
                            us@[x as int],
                        ]);
                        lemma_add_votes_concat(e_before, k, us@.take(x as int), seq![
                            us@[x as int],
                        ]);
                        assert(seq![us@[x as int]].skip(1) =~= Seq::<UserId>::empty());
                        reveal_with_fuel(spec_add_votes, 2);
                    }
                    st.add_vote(k, us[x]);
                    x = x + 1;
                }
                proof {
                    assert(us@.take(x as int) =~= us@);
                    assert(pairs.push((k, us@)) =~= pairs + seq![(k, us@)]);
                    lemma_apply_pairs_concat(e0, pairs, seq![(k, us@)]);
                    assert(seq![(k, us@)].skip(1) =~= Seq::<(Reaction, Seq<UserId>)>::empty());
                    reveal_with_fuel(spec_apply_pairs, 2);
                    assert(spec_apply_pairs(e0, pairs.push((k, us@))) == spec_add_votes(
                        spec_apply_pairs(e0, pairs),
                        k,
                        us@,
                    ));
                    pairs = pairs.push((k, us@));
                }
            },
        }
        j = j + 1;
    }
    proof {
        assert(sgs.take(j as int) =~= sgs);
        assert(spec_query_pairs(ann_query(a@)) == Some(pairs));
    }
    Ok(true)
}

/// Parses one `key=value` query segment.
#[verifier::loop_isolation(false)]
fn parse_pair(seg: &str) -> (r: Result<(Reaction, Vec<UserId>), CorruptState>)
    ensures
        match r {
            Ok(p) => spec_parse_pair(seg@) == Some((p.0, p.1@)),
            Err(_) => spec_parse_pair(seg@) is None,
        },
{
    let n = seg.unicode_len();
    match find_char(seg, '=') {
        None => Err(CorruptState),
        Some(i) => {
            proof {
                crate::text::lemma_find_spec(seg@, '=');
            }
            let key = seg.substring_char(0, i);
            let val = seg.substring_char(i + 1, n);
            proof {
                assert(key@ =~= seg@.take(i as int));
                assert(val@ =~= seg@.skip(i as int + 1));
            }
            match Reaction::from_id(key) {
                None => Err(CorruptState),
                Some(k) => {
                    let tokens = split_str(val, ',');
                    let ghost toks = split_on(val@, ',');
                    let mut us: Vec<UserId> = Vec::new();
                    let mut j: usize = 0;
                    while j < tokens.len()
                        invariant
                            0 <= j <= tokens.len(),
                            tokens@.map_values(|t: String| t@) == toks,
                            toks.len() == tokens@.len(),
                            spec_parse_users(toks.take(j as int)) == Some(us@),
                        decreases tokens.len() - j,
                    {
                        proof {
                            assert(toks.take(j as int + 1) =~= toks.take(j as int) + seq![
                                toks[j as int],
                            ]);
                            lemma_parse_users_concat(toks.take(j as int), seq![toks[j as int]]);
                            lemma_parse_users_one(toks[j as int]);
                        }
                        match parse_i32(tokens[j].as_str()) {
                            None => {
                                proof {
                                    assert(spec_parse_users(toks.take(j as int + 1)) is None);
                                    assert(toks =~= toks.take(j as int + 1) + toks.skip(
                                        j as int + 1,
                                    ));
                                    lemma_parse_users_concat(
                                        toks.take(j as int + 1),
                                        toks.skip(j as int + 1),
                                    );
                                    assert(spec_parse_users(toks) is None);
                                }
                                return Err(CorruptState);
                            },
                            Some(u) => {
                                let ghost prev = us@;
                                us.push(u);
                                proof {
                                    assert(us@ =~= prev + seq![u]);
                                }
                            },
                        }
                        j = j + 1;
                    }
                    proof {
                        assert(toks.take(j as int) =~= toks);
                    }
                    Ok((k, us))
                },
            }
        },
    }
}

/// Decodes the reaction state of a message from its visible text and
/// its link annotation targets. `Ok(None)` means the message is no
/// reaction message: it has no matching annotation and no marker. A
/// message with the marker but no matching annotation holds the empty
/// state. Matching annotations are merged by union; a matching
/// annotation whose query fails to parse is a corrupt state.
#[verifier::loop_isolation(false)]
pub fn get_reactions_users(text: &str, annotations: &Vec<String>) -> (r: Result<
    Option<ReactionState>,
    CorruptState,
>)
    ensures
        ({
            let d = spec_decode(text@, annotations@.map_values(|a: String| a@));
            match r {
                Ok(Some(st)) => d == Ok::<Option<Entries>, CorruptState>(Some(st.entries_seq()))
                    && st.wf(),
                Ok(None) => d == Ok::<Option<Entries>, CorruptState>(None),
                Err(_) => d is Err,
            }
        }),
{
    let ghost anns = annotations@.map_values(|a: String| a@);
    let ghost empty_entries = Seq::<(Reaction, Seq<UserId>)>::empty();
    let mut st = ReactionState::new();
    let mut matched = false;
    let mut i: usize = 0;
    while i < annotations.len()
        invariant
            0 <= i <= annotations.len(),
            anns == annotations@.map_values(|a: String| a@),
            anns.len() == annotations@.len(),
            st.wf(),
            spec_decode_anns(empty_entries, anns.take(i as int)) == Some(st.entries_seq()),
            matched == any_ann_matches(anns.take(i as int)),
        decreases annotations.len() - i,
    {
        let ghost a_cur = anns[i as int];
        proof {
            assert(anns.take(i as int + 1) =~= anns.take(i as int) + seq![a_cur]);
            lemma_decode_anns_concat(empty_entries, anns.take(i as int), seq![a_cur]);
        }
        match apply_annotation(&mut st, annotations[i].as_str()) {
            Ok(m) => {
                proof {
                    lemma_decode_anns_one(
                        spec_decode_anns(empty_entries, anns.take(i as int))->0,
                        a_cur,
                    );
                    if m {
                        assert(anns.take(i as int + 1)[i as int] == a_cur);
                        assert(any_ann_matches(anns.take(i as int + 1)));
                    } else {
                        if any_ann_matches(anns.take(i as int + 1)) {
                            let w = choose|w: int|
                                0 <= w < anns.take(i as int + 1).len() && ann_matches(
                                    #[trigger] anns.take(i as int + 1)[w],
                                );
                            if w < i as int {
                                assert(anns.take(i as int)[w] == anns.take(i as int + 1)[w]);
                                assert(any_ann_matches(anns.take(i as int)));
                            }
                        }
                        if any_ann_matches(anns.take(i as int)) {
                            let w = choose|w: int|
                                0 <= w < anns.take(i as int).len() && ann_matches(
                                    #[trigger] anns.take(i as int)[w],
                                );
                            assert(anns.take(i as int + 1)[w] == anns.take(i as int)[w]);
                            assert(any_ann_matches(anns.take(i as int + 1)));
                        }
                    }
                }
                if m {
                    matched = true;
                }
            },
            Err(c) => {
                proof {
                    lemma_decode_anns_one(
                        spec_decode_anns(empty_entries, anns.take(i as int))->0,
                        a_cur,
                    );
                    assert(spec_decode_anns(empty_entries, anns.take(i as int + 1)) is None);
                    assert(anns =~= anns.take(i as int + 1) + anns.skip(i as int + 1));
                    lemma_decode_anns_concat(
                        empty_entries,
                        anns.take(i as int + 1),
                        anns.skip(i as int + 1),
                    );
                    assert(spec_decode_anns(empty_entries, anns) is None);
                }
                return Err(c);
            },
        }
        i = i + 1;
    }
    proof {
        assert(anns.take(i as int) =~= anns);
    }
    if matched {
        Ok(Some(st))
    } else if contains_char(text, '\u{034f}') {
        Ok(Some(ReactionState::new()))
    } else {
        Ok(None)
    }
}

// ---------------------------------------------------------------------
// The codec laws
// ---------------------------------------------------------------------

/// The kinds of `ks` that have votes, each with its vote list.
pub open spec fn spec_nonempty_pairs(e: Entries, ks: Seq<Reaction>) -> Seq<(Reaction, Seq<UserId>)>
    decreases ks.len(),
{
    if ks.len() == 0 {
        Seq::<(Reaction, Seq<UserId>)>::empty()
    } else {
        (if spec_votes(e, ks[0]).len() > 0 {
            seq![(ks[0], spec_votes(e, ks[0]))]
        } else {
            Seq::<(Reaction, Seq<UserId>)>::empty()
        }) + spec_nonempty_pairs(e, ks.skip(1))
    }
}

/// Appending a kind to the list extends the non-empty pairs by that
/// kind's entry exactly when it has votes.
pub proof fn lemma_nonempty_pairs_snoc(e: Entries, ks: Seq<Reaction>, k: Reaction)
    ensures
        spec_nonempty_pairs(e, ks.push(k)) == spec_nonempty_pairs(e, ks) + (if spec_votes(
            e,
            k,
        ).len() > 0 {
            seq![(k, spec_votes(e, k))]
        } else {
            Seq::<(Reaction, Seq<UserId>)>::empty()
        }),
    decreases ks.len(),
{
    reveal_with_fuel(spec_nonempty_pairs, 2);
    let p = ks.push(k);
    let tailbit = if spec_votes(e, k).len() > 0 {
        seq![(k, spec_votes(e, k))]
    } else {
        Seq::<(Reaction, Seq<UserId>)>::empty()
    };
    if ks.len() == 0 {
        assert(p[0] == k);
        assert(p.skip(1) =~= Seq::<Reaction>::empty());
        assert(spec_nonempty_pairs(e, p) =~= spec_nonempty_pairs(e, ks) + tailbit);
    } else {
        assert(p[0] == ks[0]);
        assert(p.skip(1) =~= ks.skip(1).push(k));
        lemma_nonempty_pairs_snoc(e, ks.skip(1), k);
        assert(spec_nonempty_pairs(e, p) =~= spec_nonempty_pairs(e, ks) + tailbit);
    }
}

/// A join of separator-free pieces that are themselves free of a
/// character is free of that character.
proof fn lemma_join_free(parts: Seq<Seq<char>>, sep: Seq<char>, c: char)
    requires
        forall|i: int| 0 <= i < parts.len() ==> !(#[trigger] parts[i]).contains(c),
        !sep.contains(c),
    ensures
        !join_with(parts, sep).contains(c),
    decreases parts.len(),
{
    if parts.len() == 0 {
    } else if parts.len() == 1 {
        assert(!parts[0].contains(c));
    } else {
        lemma_join_free(parts.skip(1), sep, c);
        let j = join_with(parts, sep);
        let rest = join_with(parts.skip(1), sep);
        assert(j == parts[0] + sep + rest);
        if j.contains(c) {
            let x = choose|x: int| 0 <= x < j.len() && j[x] == c;
            if x < parts[0].len() {
                assert(parts[0][x] == c);
                assert(parts[0].contains(c));
            } else if x < parts[0].len() + sep.len() {
                assert(sep[x - parts[0].len()] == c);
                assert(sep.contains(c));
            } else {
                assert(rest[x - parts[0].len() - sep.len()] == c);
                assert(rest.contains(c));
            }
        }
    }
}

/// Lookup in an entry list with an explicit head entry.
proof fn lemma_votes_cons(p: (Reaction, Seq<UserId>), rest: Entries, k: Reaction)
    ensures
        spec_votes(seq![p] + rest, k) == if p.0 == k {
            p.1
        } else {
            spec_votes(rest, k)
        },
{
    let e = seq![p] + rest;
    assert(crate::state::kinds_of(e)[0] == p.0);
    assert(crate::state::kinds_of(e).skip(1) =~= crate::state::kinds_of(rest));
    if p.0 == k {
        assert(e[0] == p);
    } else {
        crate::state::lemma_find_index_spec(crate::state::kinds_of(rest), k);
        match find_index(crate::state::kinds_of(rest), k) {
            None => {},
            Some(i) => {
                assert(e[i + 1] == rest[i]);
            },
        }
    }
}

/// A vote token list renders and parses back to itself.
proof fn lemma_parse_users_of_votes(vs: Seq<UserId>)
    ensures
        spec_parse_users(vs.map_values(|u: UserId| dec_i32(u as int))) == Some(vs),
    decreases vs.len(),
{
    let tokens = vs.map_values(|u: UserId| dec_i32(u as int));
    if vs.len() > 0 {
        assert(tokens[0] == dec_i32(vs[0] as int));
        crate::decimal::lemma_parse_of_format(vs[0] as int);
        assert(tokens.skip(1) =~= vs.skip(1).map_values(|u: UserId| dec_i32(u as int)));
        lemma_parse_users_of_votes(vs.skip(1));
        assert(seq![vs[0]] + vs.skip(1) =~= vs);
    }
}

/// One kind's parameter is delimiter-clean and parses back to the kind
/// and its votes.
proof fn lemma_parse_of_param(e: Entries, k: Reaction)
    requires
        spec_votes(e, k).len() > 0,
    ensures
        spec_parse_pair(spec_param(e, k)) == Some((k, spec_votes(e, k))),
        !spec_param(e, k).contains('&'),
        spec_param(e, k).len() > 0,
{
    let vs = spec_votes(e, k);
    let id = spec_id(k);
    let tokens = vs.map_values(|u: UserId| dec_i32(u as int));
    let tail = join_with(tokens, seq![',']);
    let param = spec_param(e, k);
    crate::catalog::lemma_id_chars(k);
    crate::catalog::lemma_id_bijection(k);
    assert forall|i: int| 0 <= i < tokens.len() implies !(#[trigger] tokens[i]).contains(',')
        && !tokens[i].contains('&') && !tokens[i].contains('=') by {
        assert(tokens[i] == dec_i32(vs[i] as int));
        crate::decimal::lemma_dec_i32_chars(vs[i] as int);
    }
    assert(!seq![','].contains('&')) by {
        assert(seq![','][0] == ',');
    }
    assert(!seq![','].contains('=')) by {
        assert(seq![','][0] == ',');
    }
    lemma_join_free(tokens, seq![','], '&');
    lemma_join_free(tokens, seq![','], '=');
    // The first '=' stands right after the identifier.
    assert(param == id + seq!['='] + tail);
    assert(param[id.len() as int] == '=');
    assert forall|j: int| 0 <= j < id.len() implies param[j] != '=' by {
        assert(param[j] == id[j]);
        assert(!id.contains('='));
    }
    crate::text::lemma_find_first(param, '=', id.len() as int);
    assert(param.take(id.len() as int) =~= id);
    assert(param.skip(id.len() as int + 1) =~= tail);
    // The value splits back into the vote tokens, which parse back.
    crate::text::lemma_split_of_join(tokens, ',');
    lemma_parse_users_of_votes(vs);
    // No '&' anywhere in the parameter.
    if param.contains('&') {
        let x = choose|x: int| 0 <= x < param.len() && param[x] == '&';
        if x < id.len() {
            assert(id[x] == '&');
            assert(id.contains('&'));
        } else if x == id.len() {
            assert(param[x] == '=');
        } else {
            assert(tail[x - id.len() - 1] == '&');
            assert(tail.contains('&'));
        }
    }
}

/// The parameter list of a state parses back into its non-empty pairs,
/// and every parameter is non-empty and free of the `&` delimiter.
proof fn lemma_parse_of_params(e: Entries, ks: Seq<Reaction>)
    ensures
        spec_parse_pairs(spec_params(e, ks)) == Some(spec_nonempty_pairs(e, ks)),
        spec_params(e, ks).len() == spec_nonempty_pairs(e, ks).len(),
        forall|i: int| 0 <= i < spec_params(e, ks).len() ==> !(#[trigger] spec_params(
            e,
            ks,
        )[i]).contains('&') && spec_params(e, ks)[i].len() > 0,
    decreases ks.len(),
{
    if ks.len() > 0 {
        lemma_parse_of_params(e, ks.skip(1));
        let ps = spec_params(e, ks);
        let rest = spec_params(e, ks.skip(1));
        let pairs = spec_nonempty_pairs(e, ks);
        let rest_pairs = spec_nonempty_pairs(e, ks.skip(1));
        if spec_votes(e, ks[0]).len() > 0 {
            lemma_parse_of_param(e, ks[0]);
            assert(ps =~= seq![spec_param(e, ks[0])] + rest);
            assert(ps[0] == spec_param(e, ks[0]));
            assert(ps.skip(1) =~= rest);
            assert(spec_parse_pairs(ps) == Some(
                seq![(ks[0], spec_votes(e, ks[0]))] + rest_pairs,
            ));
            assert(pairs == seq![(ks[0], spec_votes(e, ks[0]))] + rest_pairs);
            assert forall|i: int| 0 <= i < ps.len() implies !(#[trigger] ps[i]).contains('&')
                && ps[i].len() > 0 by {
                if i >= 1 {
                    assert(ps[i] == rest[i - 1]);
                }
            }
        } else {
            assert(ps =~= rest);
            assert(pairs =~= rest_pairs);
        }
    }
}

/// Adding a fresh kind's votes onto an entry list that already carries a
/// prefix of them extends that entry.
proof fn lemma_add_votes_fresh(acc: Entries, k: Reaction, w: Seq<UserId>, us: Seq<UserId>)
    requires
        spec_kind_index(acc, k) is None,
        crate::state::no_dup(w + us),
    ensures
        spec_add_votes(acc.push((k, w)), k, us) == acc.push((k, w + us)),
    decreases us.len(),
{
    let e1 = acc.push((k, w));
    if us.len() == 0 {
        assert(w + us =~= w);
    } else {
        crate::state::lemma_votes_push_new(acc, k, w);
        assert(spec_kind_index(e1, k) == Some(acc.len() as int));
        assert(e1[acc.len() as int] == (k, w));
        assert(!w.contains(us[0])) by {
            if w.contains(us[0]) {
                let x = choose|x: int| 0 <= x < w.len() && w[x] == us[0];
                assert((w + us)[x] == us[0]);
                assert((w + us)[w.len() as int] == us[0]);
            }
        }
        assert(spec_add_vote(e1, k, us[0]) == e1.update(acc.len() as int, (k, w.push(us[0]))));
        assert(e1.update(acc.len() as int, (k, w.push(us[0]))) =~= acc.push((k, w.push(us[0]))));
        assert(crate::state::no_dup(w.push(us[0]) + us.skip(1))) by {
            assert(w.push(us[0]) + us.skip(1) =~= w + us);
        }
        lemma_add_votes_fresh(acc, k, w.push(us[0]), us.skip(1));
        assert(w.push(us[0]) + us.skip(1) =~= w + us);
    }
}

/// Adding a fresh kind's votes appends one entry holding them.
proof fn lemma_add_votes_new(acc: Entries, k: Reaction, us: Seq<UserId>)
    requires
        spec_kind_index(acc, k) is None,
        crate::state::no_dup(us),
        us.len() > 0,
    ensures
        spec_add_votes(acc, k, us) == acc.push((k, us)),
{
    assert(spec_add_vote(acc, k, us[0]) == acc.push((k, seq![us[0]])));
    assert(crate::state::no_dup(seq![us[0]] + us.skip(1))) by {
        assert(seq![us[0]] + us.skip(1) =~= us);
    }
    lemma_add_votes_fresh(acc, k, seq![us[0]], us.skip(1));
    assert(seq![us[0]] + us.skip(1) =~= us);
}

/// Merging pairs of fresh, distinct kinds appends them as entries.
proof fn lemma_apply_pairs_fresh(acc: Entries, pairs: Seq<(Reaction, Seq<UserId>)>)
    requires
        forall|i: int| 0 <= i < pairs.len() ==> spec_kind_index(
            acc,
            (#[trigger] pairs[i]).0,
        ) is None,
        forall|i: int, j: int| 0 <= i < j < pairs.len() ==> pairs[i].0 != pairs[j].0,
        forall|i: int| 0 <= i < pairs.len() ==> crate::state::no_dup((#[trigger] pairs[i]).1)
            && pairs[i].1.len() > 0,
    ensures
        spec_apply_pairs(acc, pairs) == acc + pairs,
    decreases pairs.len(),
{
    if pairs.len() == 0 {
        assert(acc + pairs =~= acc);
    } else {
        let p = pairs[0];
        assert(p == (p.0, p.1));
        lemma_add_votes_new(acc, p.0, p.1);
        let acc1 = acc.push(p);
        assert(spec_add_votes(acc, p.0, p.1) == acc1);
        assert forall|i: int| 0 <= i < pairs.skip(1).len() implies spec_kind_index(
            acc1,
            (#[trigger] pairs.skip(1)[i]).0,
        ) is None by {
            let k2 = pairs.skip(1)[i].0;
            assert(pairs.skip(1)[i] == pairs[i + 1]);
            assert(k2 != p.0);
            crate::state::lemma_find_index_spec(crate::state::kinds_of(acc), k2);
            assert(crate::state::kinds_of(acc1) =~= crate::state::kinds_of(acc).push(p.0));
            crate::state::lemma_find_index_spec(crate::state::kinds_of(acc1), k2);
            if spec_kind_index(acc1, k2) is Some {
                let x = spec_kind_index(acc1, k2)->0;
                assert(crate::state::kinds_of(acc1)[x] == k2);
                if x < acc.len() {
                    assert(crate::state::kinds_of(acc)[x] == k2);
                }
            }
        }
        assert(forall|i: int, j: int|
            0 <= i < j < pairs.skip(1).len() ==> pairs.skip(1)[i].0 != pairs.skip(1)[j].0);
        assert(forall|i: int|
            0 <= i < pairs.skip(1).len() ==> crate::state::no_dup(
                (#[trigger] pairs.skip(1)[i]).1,
            ) && pairs.skip(1)[i].1.len() > 0);
        lemma_apply_pairs_fresh(acc1, pairs.skip(1));
        assert(acc1 + pairs.skip(1) =~= acc + pairs);
    }
}

/// The non-empty pairs of a duplicate-free kind list: each pair carries
/// its kind's votes, kinds are distinct and drawn from the list, and
/// under well-formedness every vote list is duplicate-free.
proof fn lemma_nonempty_pairs_facts(e: Entries, ks: Seq<Reaction>)
    requires
        crate::state::no_dup(ks),
    ensures
        forall|i: int| 0 <= i < spec_nonempty_pairs(e, ks).len() ==> {
            let p = #[trigger] spec_nonempty_pairs(e, ks)[i];
            &&& p.1 == spec_votes(e, p.0)
            &&& p.1.len() > 0
            &&& ks.contains(p.0)
        },
        forall|i: int, j: int| 0 <= i < j < spec_nonempty_pairs(e, ks).len() ==> spec_nonempty_pairs(
            e,
            ks,
        )[i].0 != spec_nonempty_pairs(e, ks)[j].0,
    decreases ks.len(),
{
    if ks.len() > 0 {
        assert(crate::state::no_dup(ks.skip(1))) by {
            assert(forall|x: int|
                0 <= x < ks.skip(1).len() ==> #[trigger] ks.skip(1)[x] == ks[x + 1]);
        }
        lemma_nonempty_pairs_facts(e, ks.skip(1));
        let pairs = spec_nonempty_pairs(e, ks);
        let rest = spec_nonempty_pairs(e, ks.skip(1));
        assert(forall|x: int| 0 <= x < ks.skip(1).len() ==> #[trigger] ks.skip(1)[x] == ks[x + 1]);
        assert forall|i: int| 0 <= i < rest.len() implies ks.contains(#[trigger] rest[i].0) by {
            assert(ks.skip(1).contains(rest[i].0));
            let x = choose|x: int| 0 <= x < ks.skip(1).len() && ks.skip(1)[x] == rest[i].0;
            assert(ks[x + 1] == rest[i].0);
        }
        if spec_votes(e, ks[0]).len() > 0 {
            assert(pairs == seq![(ks[0], spec_votes(e, ks[0]))] + rest);
            assert(pairs[0] == (ks[0], spec_votes(e, ks[0])));
            assert(forall|i: int| 1 <= i < pairs.len() ==> #[trigger] pairs[i] == rest[i - 1]);
            assert forall|i: int, j: int|
                0 <= i < j < pairs.len() implies pairs[i].0 != pairs[j].0 by {
                if i == 0 {
                    assert(ks.contains(rest[j - 1].0));
                    let x = choose|x: int| 0 <= x < ks.len() && ks[x] == rest[j - 1].0;
                    assert(ks.skip(1).contains(rest[j - 1].0));
                    let y = choose|y: int|
                        0 <= y < ks.skip(1).len() && ks.skip(1)[y] == rest[j - 1].0;
                    assert(ks[y + 1] == rest[j - 1].0);
                    assert(ks[0] != ks[y + 1]);
                }
            }
        } else {
            assert(pairs =~= rest);
        }
    }
}

/// A kind outside the list has no entry among the non-empty pairs.
proof fn lemma_nonempty_pairs_absent(e: Entries, ks: Seq<Reaction>, k: Reaction)
    requires
        !ks.contains(k),
    ensures
        spec_votes(spec_nonempty_pairs(e, ks), k) == Seq::<UserId>::empty(),
        spec_kind_index(spec_nonempty_pairs(e, ks), k) is None,
    decreases ks.len(),
{
    let pairs = spec_nonempty_pairs(e, ks);
    if ks.len() == 0 {
        assert(crate::state::kinds_of(pairs) =~= Seq::<Reaction>::empty());
    } else {
        assert(!ks.skip(1).contains(k)) by {
            if ks.skip(1).contains(k) {
                let x = choose|x: int| 0 <= x < ks.skip(1).len() && ks.skip(1)[x] == k;
                assert(ks[x + 1] == k);
            }
        }
        assert(ks[0] != k);
        lemma_nonempty_pairs_absent(e, ks.skip(1), k);
        let rest = spec_nonempty_pairs(e, ks.skip(1));
        if spec_votes(e, ks[0]).len() > 0 {
            lemma_votes_cons((ks[0], spec_votes(e, ks[0])), rest, k);
            assert(crate::state::kinds_of(pairs)[0] == ks[0]);
            assert(crate::state::kinds_of(pairs).skip(1) =~= crate::state::kinds_of(rest));
        } else {
            assert(pairs =~= rest);
        }
    }
}

/// Looking any listed kind up among the non-empty pairs yields exactly
/// its votes in the source state.
proof fn lemma_nonempty_pairs_lookup(e: Entries, ks: Seq<Reaction>, k: Reaction)
    requires
        crate::state::no_dup(ks),
        ks.contains(k),
    ensures
        spec_votes(spec_nonempty_pairs(e, ks), k) == spec_votes(e, k),
    decreases ks.len(),
{
    let pairs = spec_nonempty_pairs(e, ks);
    let rest = spec_nonempty_pairs(e, ks.skip(1));
    assert(forall|x: int| 0 <= x < ks.skip(1).len() ==> #[trigger] ks.skip(1)[x] == ks[x + 1]);
    if ks[0] == k {
        assert(!ks.skip(1).contains(k)) by {
            if ks.skip(1).contains(k) {
                let x = choose|x: int| 0 <= x < ks.skip(1).len() && ks.skip(1)[x] == k;
                assert(ks[x + 1] == k);
            }
        }
        if spec_votes(e, k).len() > 0 {
            lemma_votes_cons((k, spec_votes(e, k)), rest, k);
        } else {
            assert(pairs =~= rest);
            lemma_nonempty_pairs_absent(e, ks.skip(1), k);
            assert(spec_votes(e, k) =~= Seq::<UserId>::empty());
        }
    } else {
        assert(crate::state::no_dup(ks.skip(1)));
        assert(ks.skip(1).contains(k)) by {
            let x = choose|x: int| 0 <= x < ks.len() && ks[x] == k;
            assert(ks.skip(1)[x - 1] == k);
        }
        lemma_nonempty_pairs_lookup(e, ks.skip(1), k);
        if spec_votes(e, ks[0]).len() > 0 {
            lemma_votes_cons((ks[0], spec_votes(e, ks[0])), rest, k);
        } else {
            assert(pairs =~= rest);
        }
    }
}

/// The display order lists every kind exactly once.
proof fn lemma_display_order_no_dup()
    ensures
        crate::state::no_dup(display_order()),
        forall|k: Reaction| display_order().contains(k),
{
    assert forall|k: Reaction| display_order().contains(k) by {
        crate::catalog::lemma_display_order(k);
    }
}

/// The encoded link target of any state is recognized as carrying
/// state, and its query is the encoded query.
proof fn lemma_enc_url_matches(e: Entries)
    ensures
        ann_matches(spec_enc_url(e)),
        ann_query(spec_enc_url(e)) == spec_enc_query(e),
{
    let u = spec_enc_url(e);
    let q = spec_enc_query(e);
    assert(u.take(url_prefix().len() as int) =~= url_prefix());
    assert(u[url_prefix().len() as int] == '?');
    if q.len() == 0 {
        assert(ann_query(u) =~= q);
    } else {
        assert(u.skip(url_prefix().len() as int + 1) =~= q);
    }
}

/// Round trip of the codec: decoding a message encoded from any
/// well-formed state yields a well-formed state with exactly the same
/// votes for every kind, whatever order the source state stored its
/// entries in.
pub proof fn lemma_codec_round_trip(e: Entries)
    requires
        crate::state::wf_entries(e),
    ensures
        spec_decode(spec_enc_message(e), seq![spec_enc_url(e)]) matches Ok(Some(d))
            && crate::state::wf_entries(d) && (forall|k: Reaction|
            spec_votes(d, k) == spec_votes(e, k)),
{
    let url = spec_enc_url(e);
    let anns = seq![url];
    lemma_enc_url_matches(e);
    assert(anns[0] == url);
    assert(any_ann_matches(anns));
    let empty_entries = Seq::<(Reaction, Seq<UserId>)>::empty();
    lemma_decode_anns_one(empty_entries, url);
    let params = spec_params(e, display_order());
    let pairs = spec_nonempty_pairs(e, display_order());
    lemma_parse_of_params(e, display_order());
    lemma_display_order_no_dup();
    lemma_nonempty_pairs_facts(e, display_order());
    let q = spec_enc_query(e);
    // The query parses back into the non-empty pairs.
    if params.len() == 0 {
        assert(q == join_with(params, seq!['&']));
        assert(q.len() == 0);
        assert(pairs.len() == 0);
        assert(spec_query_pairs(ann_query(url)) == Some(pairs)) by {
            assert(pairs =~= empty_entries);
        }
    } else {
        assert(q.len() > 0) by {
            if params.len() == 1 {
                assert(q == params[0]);
            } else {
                assert(q == params[0] + seq!['&'] + join_with(params.skip(1), seq!['&']));
            }
            assert(params[0].len() > 0);
        }
        crate::text::lemma_split_of_join(params, '&');
        assert(spec_query_pairs(ann_query(url)) == Some(pairs));
    }
    // Merging the pairs into the empty state lays them out as entries.
    assert forall|i: int| 0 <= i < pairs.len() implies spec_kind_index(
        empty_entries,
        (#[trigger] pairs[i]).0,
    ) is None by {
        assert(crate::state::kinds_of(empty_entries) =~= Seq::<Reaction>::empty());
    }
    assert forall|i: int| 0 <= i < pairs.len() implies crate::state::no_dup(
        (#[trigger] pairs[i]).1,
    ) && pairs[i].1.len() > 0 by {
        assert(pairs[i].1 == spec_votes(e, pairs[i].0));
        crate::state::lemma_votes_no_dup(e, pairs[i].0);
    }
    lemma_apply_pairs_fresh(empty_entries, pairs);
    assert(empty_entries + pairs =~= pairs);
    assert(spec_apply_ann(empty_entries, url) == Some(pairs));
    assert(spec_decode(spec_enc_message(e), anns) == Ok::<Option<Entries>, CorruptState>(
        Some(pairs),
    ));
    // The merged entries are well-formed ...
    assert(crate::state::wf_entries(pairs)) by {
        assert forall|i: int, j: int|
            0 <= i < j < crate::state::kinds_of(pairs).len() implies crate::state::kinds_of(
            pairs,
        )[i] != crate::state::kinds_of(pairs)[j] by {
            assert(crate::state::kinds_of(pairs)[i] == pairs[i].0);
            assert(crate::state::kinds_of(pairs)[j] == pairs[j].0);
        }
        assert forall|i: int| 0 <= i < pairs.len() implies crate::state::no_dup(
            (#[trigger] pairs[i]).1,
        ) by {
            crate::state::lemma_votes_no_dup(e, pairs[i].0);
        }
    }
    // ... and carry every kind's votes unchanged.
    assert forall|k: Reaction| spec_votes(pairs, k) == spec_votes(e, k) by {
        lemma_nonempty_pairs_lookup(e, display_order(), k);
    }
}

/// A kind without votes leaves no trace in the encoded form: encoding a
/// state that holds a kind with an empty vote list is identical to
/// encoding the same state with that entry removed entirely.
pub proof fn lemma_encode_ignores_empty(e: Entries, k: Reaction)
    requires
        crate::state::wf_entries(e),
        spec_votes(e, k).len() == 0,
    ensures
        spec_enc_url(remove_kind(e, k)) == spec_enc_url(e),
        spec_enc_tally(remove_kind(e, k)) == spec_enc_tally(e),
        spec_enc_message(remove_kind(e, k)) == spec_enc_message(e),
{
    lemma_remove_kind_votes(e, k);
    assert(spec_votes(e, k) =~= Seq::<UserId>::empty());
    lemma_enc_same_votes(remove_kind(e, k), e);
}

/// The entry list without the entry of `k`, if one is present.
pub open spec fn remove_kind(e: Entries, k: Reaction) -> Entries {
    match spec_kind_index(e, k) {
        None => e,
        Some(i) => e.remove(i),
    }
}

/// Removing a kind's entry empties that kind's votes and changes no
/// other kind's votes.
proof fn lemma_remove_kind_votes(e: Entries, k: Reaction)
    requires
        crate::state::wf_entries(e),
    ensures
        spec_votes(remove_kind(e, k), k) == Seq::<UserId>::empty(),
        forall|k2: Reaction| k2 != k ==> spec_votes(remove_kind(e, k), k2) == spec_votes(e, k2),
{
    crate::state::lemma_find_index_spec(crate::state::kinds_of(e), k);
    match spec_kind_index(e, k) {
        None => {},
        Some(i) => {
            let e1 = e.remove(i);
            assert(crate::state::kinds_of(e1) =~= crate::state::kinds_of(e).remove(i));
            let ks = crate::state::kinds_of(e);
            let ks1 = crate::state::kinds_of(e1);
            assert(ks[i] == k);
            // k occurs nowhere else, so it is gone from the remainder.
            assert(spec_kind_index(e1, k) is None) by {
                crate::state::lemma_find_index_spec(ks1, k);
                if spec_kind_index(e1, k) is Some {
                    let x = spec_kind_index(e1, k)->0;
                    assert(ks1[x] == k);
                    if x < i {
                        assert(ks[x] == k);
                    } else {
                        assert(ks[x + 1] == k);
                    }
                }
            }
            assert forall|k2: Reaction| k2 != k implies spec_votes(e1, k2) == spec_votes(
                e,
                k2,
            ) by {
                crate::state::lemma_find_index_spec(ks, k2);
                match spec_kind_index(e, k2) {
                    None => {
                        crate::state::lemma_find_index_spec(ks1, k2);
                        if spec_kind_index(e1, k2) is Some {
                            let x = spec_kind_index(e1, k2)->0;
                            assert(ks1[x] == k2);
                            if x < i {
                                assert(ks[x] == k2);
                            } else {
                                assert(ks[x + 1] == k2);
                            }
                        }
                    },
                    Some(j) => {
                        assert(ks[j] == k2);
                        assert(j != i);
                        if j < i {
                            assert(ks1[j] == k2);
                            assert(forall|y: int| 0 <= y < j ==> ks1[y] == ks[y]);
                            crate::state::lemma_find_index_first(ks1, k2, j);
                            assert(e1[j] == e[j]);
                        } else {
                            assert(ks1[j - 1] == k2);
                            assert forall|y: int| 0 <= y < j - 1 implies ks1[y] != k2 by {
                                if y < i {
                                    assert(ks1[y] == ks[y]);
                                } else {
                                    assert(ks1[y] == ks[y + 1]);
                                }
                            }
                            crate::state::lemma_find_index_first(ks1, k2, j - 1);
                            assert(e1[j - 1] == e[j]);
                        }
                    },
                }
            }
        },
    }
}

/// Two states with the same votes for every kind encode identically.
proof fn lemma_enc_same_votes(e1: Entries, e2: Entries)
    requires
        forall|k: Reaction| spec_votes(e1, k) == spec_votes(e2, k),
    ensures
        spec_enc_url(e1) == spec_enc_url(e2),
        spec_enc_tally(e1) == spec_enc_tally(e2),
        spec_enc_message(e1) == spec_enc_message(e2),
{
    lemma_enc_same_votes_lists(e1, e2, display_order());
}

/// The parameter and tally lists agree kindwise.
proof fn lemma_enc_same_votes_lists(e1: Entries, e2: Entries, ks: Seq<Reaction>)
    requires
        forall|k: Reaction| spec_votes(e1, k) == spec_votes(e2, k),
    ensures
        spec_params(e1, ks) == spec_params(e2, ks),
        spec_tallies(e1, ks) == spec_tallies(e2, ks),
    decreases ks.len(),
{
    if ks.len() > 0 {
        lemma_enc_same_votes_lists(e1, e2, ks.skip(1));
        assert(spec_param(e1, ks[0]) == spec_param(e2, ks[0]));
        assert(spec_tally(e1, ks[0]) == spec_tally(e2, ks[0]));
    }
}

/// Decode tolerance: a message with no matching annotation and no
/// marker is no reaction message, whatever unrelated links it carries.
pub proof fn lemma_decode_tolerance(text: Seq<char>, anns: Seq<Seq<char>>)
    requires
        forall|i: int| 0 <= i < anns.len() ==> !ann_matches(#[trigger] anns[i]),
        !text.contains(marker_char()),
    ensures
        spec_decode(text, anns) == Ok::<Option<Entries>, CorruptState>(None),
{
    lemma_decode_anns_skip_all(Seq::<(Reaction, Seq<UserId>)>::empty(), anns);
}

/// Folding annotations that all fail to match changes nothing.
proof fn lemma_decode_anns_skip_all(e: Entries, anns: Seq<Seq<char>>)
    requires
        forall|i: int| 0 <= i < anns.len() ==> !ann_matches(#[trigger] anns[i]),
    ensures
        spec_decode_anns(e, anns) == Some(e),
    decreases anns.len(),
{
    if anns.len() > 0 {
        assert(!ann_matches(anns[0]));
        assert(forall|i: int|
            0 <= i < anns.skip(1).len() ==> #[trigger] anns.skip(1)[i] == anns[i + 1]);
        lemma_decode_anns_skip_all(e, anns.skip(1));
    }
}

} // verus!
