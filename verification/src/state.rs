//! The reaction state: a mapping from reaction kind to the users who
//! voted it, held as an association list in insertion order. A kind may
//! stay present with an empty vote list after a removing toggle; the
//! codec and the renderer filter empty kinds out, so presence with an
//! empty list and absence are observably the same.

use vstd::prelude::*;

use crate::catalog::Reaction;

verus! {

/// A user identifier as the host platform hands it out.
pub type UserId = i32;

/// The spec-level shape of a reaction state: kind and votes per entry.
pub type Entries = Seq<(Reaction, Seq<UserId>)>;

/// First index holding `x`, if any.
pub open spec fn find_index<A>(s: Seq<A>, x: A) -> Option<int>
    decreases s.len(),
{
    if s.len() == 0 {
        None
    } else if s[0] == x {
        Some(0)
    } else {
        match find_index(s.skip(1), x) {
            None => None,
            Some(i) => Some(i + 1),
        }
    }
}

/// `find_index` names the first occurrence; `None` means no occurrence.
pub proof fn lemma_find_index_spec<A>(s: Seq<A>, x: A)
    ensures
        match find_index(s, x) {
            Some(i) => 0 <= i < s.len() && s[i] == x && forall|j: int|
                0 <= j < i ==> s[j] != x,
            None => forall|j: int| 0 <= j < s.len() ==> s[j] != x,
        },
    decreases s.len(),
{
    if s.len() > 0 && s[0] != x {
        lemma_find_index_spec(s.skip(1), x);
        assert(forall|k: int| 1 <= k < s.len() ==> s[k] == #[trigger] s.skip(1)[k - 1]);
        match find_index(s.skip(1), x) {
            None => {
                assert forall|j: int| 0 <= j < s.len() implies s[j] != x by {
                    if j >= 1 {
                        assert(s.skip(1)[j - 1] != x);
                    }
                }
            },
            Some(i) => {
                assert(s[i + 1] == s.skip(1)[i]);
                assert forall|j: int| 0 <= j < i + 1 implies s[j] != x by {
                    if j >= 1 {
                        assert(s.skip(1)[j - 1] != x);
                    }
                }
            },
        }
    }
}

/// Conversely, a first occurrence is what `find_index` finds.
pub proof fn lemma_find_index_first<A>(s: Seq<A>, x: A, i: int)
    requires
        0 <= i < s.len(),
        s[i] == x,
        forall|j: int| 0 <= j < i ==> s[j] != x,
    ensures
        find_index(s, x) == Some(i),
    decreases s.len(),
{
    if i > 0 {
        assert(forall|k: int| 1 <= k < s.len() ==> s[k] == #[trigger] s.skip(1)[k - 1]);
        lemma_find_index_first(s.skip(1), x, i - 1);
    }
}

/// Whether a sequence holds no element twice.
pub open spec fn no_dup<A>(s: Seq<A>) -> bool {
    forall|i: int, j: int| 0 <= i < j < s.len() ==> s[i] != s[j]
}

/// The sequence of kinds of an entry list.
pub open spec fn kinds_of(e: Entries) -> Seq<Reaction> {
    e.map_values(|p: (Reaction, Seq<UserId>)| p.0)
}

/// First entry index of a kind, if the kind is present.
pub open spec fn spec_kind_index(e: Entries, k: Reaction) -> Option<int> {
    find_index(kinds_of(e), k)
}

/// The vote list of a kind: empty when the kind is absent.
pub open spec fn spec_votes(e: Entries, k: Reaction) -> Seq<UserId> {
    match spec_kind_index(e, k) {
        None => Seq::<UserId>::empty(),
        Some(i) => e[i].1,
    }
}

/// The vote set of a kind: the order-free reading of its vote list.
pub open spec fn spec_vote_set(e: Entries, k: Reaction) -> Set<UserId> {
    spec_votes(e, k).to_set()
}

/// Well-formedness: kinds occur at most once, and no vote list holds a
/// user twice.
pub open spec fn wf_entries(e: Entries) -> bool {
    &&& no_dup(kinds_of(e))
    &&& forall|i: int| 0 <= i < e.len() ==> no_dup((#[trigger] e[i]).1)
}

/// What one toggle does to an entry list: a first vote of a kind appends
/// a fresh entry; a repeated vote of a user removes that user; a new
/// vote of a user appends the user. The flag reports whether the vote
/// was added.
pub open spec fn spec_toggle(e: Entries, k: Reaction, u: UserId) -> (Entries, bool) {
    match spec_kind_index(e, k) {
        None => (e.push((k, seq![u])), true),
        Some(i) => {
            let vs = e[i].1;
            match find_index(vs, u) {
                Some(j) => (e.update(i, (k, vs.remove(j))), false),
                None => (e.update(i, (k, vs.push(u))), true),
            }
        },
    }
}

/// Two entry lists with the same kinds in the same order index kinds the
/// same way.
proof fn lemma_kind_index_same_kinds(e1: Entries, e2: Entries, k: Reaction)
    requires
        kinds_of(e1) == kinds_of(e2),
    ensures
        spec_kind_index(e1, k) == spec_kind_index(e2, k),
{
}

/// Looking a kind up after pushing an entry of another kind is the same
/// lookup.
pub proof fn lemma_votes_push_other(e: Entries, k2: Reaction, k: Reaction, vs: Seq<UserId>)
    requires
        k2 != k,
    ensures
        spec_votes(e.push((k, vs)), k2) == spec_votes(e, k2),
{
    let e1 = e.push((k, vs));
    assert(kinds_of(e1) =~= kinds_of(e).push(k));
    lemma_find_index_spec(kinds_of(e), k2);
    match spec_kind_index(e, k2) {
        None => {
            lemma_find_index_spec(kinds_of(e1), k2);
            if spec_kind_index(e1, k2) is Some {
                let i = spec_kind_index(e1, k2)->0;
                assert(kinds_of(e1)[i] == k2);
                assert(i < kinds_of(e).len() ==> kinds_of(e)[i] == k2);
            }
        },
        Some(i) => {
            assert(kinds_of(e1)[i] == k2);
            assert(forall|j: int| 0 <= j < i ==> kinds_of(e1)[j] == kinds_of(e)[j]);
            lemma_find_index_first(kinds_of(e1), k2, i);
            assert(e1[i] == e[i]);
        },
    }
}

/// Looking a kind up after pushing a fresh entry of that kind finds the
/// fresh entry.
pub proof fn lemma_votes_push_new(e: Entries, k: Reaction, vs: Seq<UserId>)
    requires
        spec_kind_index(e, k) is None,
    ensures
        spec_kind_index(e.push((k, vs)), k) == Some(e.len() as int),
        spec_votes(e.push((k, vs)), k) == vs,
{
    let e1 = e.push((k, vs));
    assert(kinds_of(e1) =~= kinds_of(e).push(k));
    lemma_find_index_spec(kinds_of(e), k);
    assert(kinds_of(e1)[e.len() as int] == k);
    assert(forall|j: int| 0 <= j < e.len() ==> kinds_of(e1)[j] == kinds_of(e)[j]);
    lemma_find_index_first(kinds_of(e1), k, e.len() as int);
    assert(e1[e.len() as int] == (k, vs));
}

/// In a well-formed list, the entry of a kind is the only entry of that
/// kind, so its index is what the lookup finds.
pub proof fn lemma_kind_index_of_entry(e: Entries, i: int)
    requires
        no_dup(kinds_of(e)),
        0 <= i < e.len(),
    ensures
        spec_kind_index(e, e[i].0) == Some(i),
{
    assert(kinds_of(e)[i] == e[i].0);
    assert(forall|j: int| 0 <= j < i ==> kinds_of(e)[j] != kinds_of(e)[i]);
    lemma_find_index_first(kinds_of(e), e[i].0, i);
}

/// Replacing the vote list of one entry changes that kind's votes and
/// nothing else.
pub proof fn lemma_votes_update(e: Entries, i: int, vs: Seq<UserId>)
    requires
        no_dup(kinds_of(e)),
        0 <= i < e.len(),
    ensures
        spec_votes(e.update(i, (e[i].0, vs)), e[i].0) == vs,
        forall|k2: Reaction| k2 != e[i].0 ==> spec_votes(
            e.update(i, (e[i].0, vs)),
            k2,
        ) == spec_votes(e, k2),
        kinds_of(e.update(i, (e[i].0, vs))) == kinds_of(e),
{
    let e1 = e.update(i, (e[i].0, vs));
    assert(kinds_of(e1) =~= kinds_of(e));
    lemma_kind_index_of_entry(e, i);
    lemma_kind_index_same_kinds(e, e1, e[i].0);
    assert(e1[i].1 == vs);
    assert forall|k2: Reaction| k2 != e[i].0 implies spec_votes(e1, k2) == spec_votes(e, k2) by {
        lemma_kind_index_same_kinds(e, e1, k2);
        lemma_find_index_spec(kinds_of(e), k2);
        match spec_kind_index(e, k2) {
            None => {},
            Some(j) => {
                assert(kinds_of(e)[j] == k2);
                assert(j != i);
                assert(e1[j] == e[j]);
            },
        }
    }
}

/// Pushing a new element to a set-like sequence inserts it into the set
/// reading.
pub proof fn lemma_to_set_push(vs: Seq<UserId>, u: UserId)
    ensures
        vs.push(u).to_set() =~= vs.to_set().insert(u),
{
    assert forall|x: UserId| vs.push(u).to_set().contains(x) implies vs.to_set().insert(
        u,
    ).contains(x) by {
        let i = choose|i: int| 0 <= i < vs.push(u).len() && vs.push(u)[i] == x;
        if i < vs.len() {
            assert(vs[i] == x);
        }
    }
    assert forall|x: UserId| vs.to_set().insert(u).contains(x) implies vs.push(
        u,
    ).to_set().contains(x) by {
        if x == u {
            assert(vs.push(u)[vs.len() as int] == x);
        } else {
            let i = choose|i: int| 0 <= i < vs.len() && vs[i] == x;
            assert(vs.push(u)[i] == x);
        }
    }
}

/// Removing the one occurrence of a user removes it from the set
/// reading.
pub proof fn lemma_to_set_remove(vs: Seq<UserId>, j: int, u: UserId)
    requires
        no_dup(vs),
        0 <= j < vs.len(),
        vs[j] == u,
    ensures
        vs.remove(j).to_set() =~= vs.to_set().remove(u),
        no_dup(vs.remove(j)),
{
    let r = vs.remove(j);
    assert forall|x: UserId| r.to_set().contains(x) implies vs.to_set().remove(u).contains(x) by {
        let i = choose|i: int| 0 <= i < r.len() && r[i] == x;
        if i < j {
            assert(vs[i] == x);
            assert(x != u);
        } else {
            assert(vs[i + 1] == x);
            assert(x != u);
        }
    }
    assert forall|x: UserId| vs.to_set().remove(u).contains(x) implies r.to_set().contains(x) by {
        let i = choose|i: int| 0 <= i < vs.len() && vs[i] == x;
        assert(i != j);
        if i < j {
            assert(r[i] == x);
        } else {
            assert(r[i - 1] == x);
        }
    }
    assert forall|a: int, b: int| 0 <= a < b < r.len() implies r[a] != r[b] by {
        if b < j {
            assert(vs[a] != vs[b]);
        } else if a < j {
            assert(vs[a] != vs[b + 1]);
        } else {
            assert(vs[a + 1] != vs[b + 1]);
        }
    }
}

/// A kind's vote list never holds a user twice in a well-formed list.
pub proof fn lemma_votes_no_dup(e: Entries, k: Reaction)
    requires
        wf_entries(e),
    ensures
        no_dup(spec_votes(e, k)),
{
    lemma_find_index_spec(kinds_of(e), k);
    match spec_kind_index(e, k) {
        None => {},
        Some(i) => {
            assert(no_dup(e[i].1));
        },
    }
}

/// A reaction state: which users voted which reaction on one message.
/// It is decoded afresh from the message's text for every event and
/// never kept; the message itself is the durable store.
pub struct ReactionState {
    pub entries: Vec<(Reaction, Vec<UserId>)>,
}

impl ReactionState {
    /// The spec-level reading of the state.
    pub open spec fn entries_seq(self) -> Entries {
        self.entries@.map_values(|p: (Reaction, Vec<UserId>)| (p.0, p.1@))
    }

    /// Well-formedness of the state.
    pub open spec fn wf(self) -> bool {
        wf_entries(self.entries_seq())
    }

    /// The vote list of a kind, in insertion order.
    pub open spec fn spec_votes_of(self, k: Reaction) -> Seq<UserId> {
        spec_votes(self.entries_seq(), k)
    }

    /// The vote set of a kind.
    pub open spec fn spec_vote_set(self, k: Reaction) -> Set<UserId> {
        spec_vote_set(self.entries_seq(), k)
    }

    /// The empty state: no votes on any kind.
    pub fn new() -> (r: ReactionState)
        ensures
            r.entries_seq() == Seq::<(Reaction, Seq<UserId>)>::empty(),
            r.wf(),
    {
        let r = ReactionState { entries: Vec::new() };
        proof {
            assert(r.entries_seq() =~= Seq::<(Reaction, Seq<UserId>)>::empty());
        }
        r
    }

    /// Index of the entry of `k`, if one is present.
    fn find_kind(&self, k: Reaction) -> (r: Option<usize>)
        ensures
            match r {
                Some(i) => spec_kind_index(self.entries_seq(), k) == Some(i as int),
                None => spec_kind_index(self.entries_seq(), k) is None,
            },
    {
        let ghost ks = kinds_of(self.entries_seq());
        let mut i: usize = 0;
        while i < self.entries.len()
            invariant
                0 <= i <= self.entries.len(),
                ks == kinds_of(self.entries_seq()),
                ks.len() == self.entries.len(),
                forall|j: int| 0 <= j < i ==> ks[j] != k,
            decreases self.entries.len() - i,
        {
            if self.entries[i].0 == k {
                proof {
                    assert(ks[i as int] == k);
                    lemma_find_index_first(ks, k, i as int);
                }
                return Some(i);
            }
            proof {
                assert(ks[i as int] == self.entries@[i as int].0);
            }
            i = i + 1;
        }
        proof {
            lemma_find_index_spec(ks, k);
            if find_index(ks, k) is Some {
                let j = find_index(ks, k)->0;
                assert(ks[j] != k);
            }
        }
        None
    }

    /// Index of `u` in a vote list, if present.
    pub(crate) fn find_user(vs: &Vec<UserId>, u: UserId) -> (r: Option<usize>)
        ensures
            match r {
                Some(j) => find_index(vs@, u) == Some(j as int),
                None => find_index(vs@, u) is None,
            },
    {
        let mut j: usize = 0;
        while j < vs.len()
            invariant
                0 <= j <= vs.len(),
                forall|i: int| 0 <= i < j ==> vs@[i] != u,
            decreases vs.len() - j,
        {
            if vs[j] == u {
                proof {
                    lemma_find_index_first(vs@, u, j as int);
                }
                return Some(j);
            }
            j = j + 1;
        }
        proof {
            lemma_find_index_spec(vs@, u);
            if find_index(vs@, u) is Some {
                let i = find_index(vs@, u)->0;
                assert(vs@[i] != u);
            }
        }
        None
    }

    /// The toggle engine: if `u` already voted `k`, the vote is removed
    /// and the call reports `false`; otherwise the vote is added and the
    /// call reports `true`. No other kind's votes change.
    pub fn toggle(&mut self, k: Reaction, u: UserId) -> (added: bool)
        requires
            old(self).wf(),
        ensures
            final(self).wf(),
            (final(self).entries_seq(), added) == spec_toggle(old(self).entries_seq(), k, u),
            added == !old(self).spec_vote_set(k).contains(u),
            final(self).spec_vote_set(k) == if added {
                old(self).spec_vote_set(k).insert(u)
            } else {
                old(self).spec_vote_set(k).remove(u)
            },
            forall|k2: Reaction| k2 != k ==> final(self).spec_votes_of(k2) == old(
                self,
            ).spec_votes_of(k2),
    {
        let ghost e0 = self.entries_seq();
        match self.find_kind(k) {
            None => {
                let mut vs: Vec<UserId> = Vec::new();
                vs.push(u);
                self.entries.push((k, vs));
                proof {
                    assert(self.entries_seq() =~= e0.push((k, seq![u])));
                    lemma_votes_push_new(e0, k, seq![u]);
                    lemma_find_index_spec(kinds_of(e0), k);
                    assert forall|k2: Reaction| k2 != k implies spec_votes(
                        self.entries_seq(),
                        k2,
                    ) == spec_votes(e0, k2) by {
                        lemma_votes_push_other(e0, k2, k, seq![u]);
                    }
                    assert(wf_entries(self.entries_seq())) by {
                        assert(kinds_of(self.entries_seq()) =~= kinds_of(e0).push(k));
                        assert(forall|i: int|
                            0 <= i < e0.len() ==> #[trigger] self.entries_seq()[i] == e0[i]);
                    }
                    assert(spec_votes(e0, k).to_set() =~= Set::<UserId>::empty());
                    lemma_to_set_push(Seq::<UserId>::empty(), u);
                    assert(seq![u] =~= Seq::<UserId>::empty().push(u));
                }
                true
            },
            Some(i) => {
                proof {
                    lemma_find_index_spec(kinds_of(e0), k);
                    assert(kinds_of(e0)[i as int] == k);
                    assert(e0[i as int].0 == k);
                }
                let entry = &self.entries[i];
                match Self::find_user(&entry.1, u) {
                    Some(j) => {
                        let ghost vs = e0[i as int].1;
                        proof {
                            lemma_find_index_spec(vs, u);
                        }
                        let mut pulled = self.entries.remove(i);
                        pulled.1.remove(j);
                        self.entries.insert(i, pulled);
                        proof {
                            assert(self.entries_seq() =~= e0.update(
                                i as int,
                                (k, vs.remove(j as int)),
                            ));
                            lemma_votes_update(e0, i as int, vs.remove(j as int));
                            lemma_to_set_remove(vs, j as int, u);
                            assert(vs.contains(u));
                            assert(spec_vote_set(e0, k).contains(u));
                            assert(wf_entries(self.entries_seq())) by {
                                assert(kinds_of(self.entries_seq()) =~= kinds_of(e0));
                                assert forall|a: int|
                                    0 <= a < self.entries_seq().len() implies no_dup(
                                    (#[trigger] self.entries_seq()[a]).1,
                                ) by {
                                    if a != i as int {
                                        assert(self.entries_seq()[a] == e0[a]);
                                    }
                                }
                            }
                        }
                        false
                    },
                    None => {
                        let ghost vs = e0[i as int].1;
                        proof {
                            lemma_find_index_spec(vs, u);
                            assert(forall|x: int| 0 <= x < vs.len() ==> vs[x] != u);
                            assert(!vs.contains(u));
                        }
                        let mut pulled = self.entries.remove(i);
                        pulled.1.push(u);
                        self.entries.insert(i, pulled);
                        proof {
                            assert(self.entries_seq() =~= e0.update(i as int, (k, vs.push(u))));
                            lemma_votes_update(e0, i as int, vs.push(u));
                            lemma_to_set_push(vs, u);
                            assert(!spec_vote_set(e0, k).contains(u));
                            assert(wf_entries(self.entries_seq())) by {
                                assert(kinds_of(self.entries_seq()) =~= kinds_of(e0));
                                assert forall|a: int|
                                    0 <= a < self.entries_seq().len() implies no_dup(
                                    (#[trigger] self.entries_seq()[a]).1,
                                ) by {
                                    if a != i as int {
                                        assert(self.entries_seq()[a] == e0[a]);
                                    } else {
                                        assert(no_dup(vs));
                                        assert forall|x: int, y: int|
                                            0 <= x < y < vs.push(u).len() implies vs.push(
                                            u,
                                        )[x] != vs.push(u)[y] by {
                                            if y < vs.len() {
                                                assert(vs[x] != vs[y]);
                                            } else {
                                                assert(vs[x] != u);
                                            }
                                        }
                                    }
                                }
                            }
                        }
                        true
                    },
                }
            },
        }
    }

    /// A copy of the vote list of `k`, in insertion order.
    pub fn votes_for(&self, k: Reaction) -> (r: Vec<UserId>)
        ensures
            r@ == self.spec_votes_of(k),
    {
        match self.find_kind(k) {
            None => Vec::new(),
            Some(i) => {
                proof {
                    lemma_find_index_spec(kinds_of(self.entries_seq()), k);
                }
                let mut out: Vec<UserId> = Vec::new();
                let entry = &self.entries[i];
                let mut j: usize = 0;
                while j < entry.1.len()
                    invariant
                        0 <= j <= entry.1.len(),
                        out@ == entry.1@.take(j as int),
                    decreases entry.1.len() - j,
                {
                    out.push(entry.1[j]);
                    proof {
                        assert(out@ =~= entry.1@.take(j as int + 1));
                    }
                    j = j + 1;
                }
                proof {
                    assert(entry.1@.take(j as int) =~= entry.1@);
                    assert(self.entries_seq()[i as int].1 == entry.1@);
                }
                out
            },
        }
    }
}

/// Double toggle is the identity on the vote mapping: toggling the same
/// vote twice leaves every kind's vote set as it was, and the two calls
/// report opposite outcomes.
pub proof fn lemma_toggle_symmetry(e: Entries, k: Reaction, u: UserId)
    requires
        wf_entries(e),
    ensures
        ({
            let (e1, a1) = spec_toggle(e, k, u);
            let (e2, a2) = spec_toggle(e1, k, u);
            &&& a2 == !a1
            &&& forall|k2: Reaction| spec_vote_set(e2, k2) == spec_vote_set(e, k2)
        }),
{
    let (e1, a1) = spec_toggle(e, k, u);
    let (e2, a2) = spec_toggle(e1, k, u);
    lemma_find_index_spec(kinds_of(e), k);
    match spec_kind_index(e, k) {
        None => {
            // First toggle appends a fresh entry (k, [u]).
            lemma_votes_push_new(e, k, seq![u]);
            assert(e1 == e.push((k, seq![u])));
            assert(spec_kind_index(e1, k) == Some(e.len() as int));
            assert(e1[e.len() as int].1 == seq![u]);
            assert(seq![u][0] == u);
            lemma_find_index_first(seq![u], u, 0);
            assert(e2 == e1.update(e.len() as int, (k, seq![u].remove(0))));
            assert(a1 == true && a2 == false);
            assert(no_dup(kinds_of(e1))) by {
                assert(kinds_of(e1) =~= kinds_of(e).push(k));
            }
            lemma_votes_update(e1, e.len() as int, seq![u].remove(0));
            assert(seq![u].remove(0) =~= Seq::<UserId>::empty());
            assert forall|k2: Reaction| spec_vote_set(e2, k2) == spec_vote_set(e, k2) by {
                if k2 == k {
                    assert(spec_votes(e2, k) =~= Seq::<UserId>::empty());
                    assert(spec_votes(e, k) == Seq::<UserId>::empty());
                    assert(spec_vote_set(e2, k) =~= spec_vote_set(e, k));
                } else {
                    lemma_votes_push_other(e, k2, k, seq![u]);
                    assert(spec_votes(e2, k2) == spec_votes(e, k2));
                }
            }
        },
        Some(i) => {
            assert(kinds_of(e)[i] == k);
            assert(e[i].0 == k);
            let vs = e[i].1;
            lemma_find_index_spec(vs, u);
            match find_index(vs, u) {
                Some(j) => {
                    // First toggle removes u; the second adds it back.
                    assert(e1 == e.update(i, (k, vs.remove(j))));
                    lemma_votes_update(e, i, vs.remove(j));
                    assert(kinds_of(e1) == kinds_of(e));
                    lemma_kind_index_same_kinds(e, e1, k);
                    assert(spec_kind_index(e1, k) == Some(i));
                    assert(e1[i].1 == vs.remove(j));
                    lemma_to_set_remove(vs, j, u);
                    assert(!vs.remove(j).to_set().contains(u));
                    assert(find_index(vs.remove(j), u) is None) by {
                        lemma_find_index_spec(vs.remove(j), u);
                        if find_index(vs.remove(j), u) is Some {
                            let x = find_index(vs.remove(j), u)->0;
                            assert(vs.remove(j)[x] == u);
                            assert(vs.remove(j).to_set().contains(u));
                        }
                    }
                    assert(e1[i].0 == k);
                    assert(e2 == e1.update(i, (k, vs.remove(j).push(u))));
                    assert(a1 == false && a2 == true);
                    lemma_votes_update(e1, i, vs.remove(j).push(u));
                    lemma_to_set_push(vs.remove(j), u);
                    assert forall|k2: Reaction| spec_vote_set(e2, k2) == spec_vote_set(
                        e,
                        k2,
                    ) by {
                        if k2 == k {
                            assert(spec_votes(e2, k) == vs.remove(j).push(u));
                            assert(vs.to_set().contains(u));
                            assert(spec_vote_set(e2, k) =~= vs.to_set());
                        } else {
                            assert(spec_votes(e1, k2) == spec_votes(e, k2));
                            assert(spec_votes(e2, k2) == spec_votes(e1, k2));
                        }
                    }
                },
                None => {
                    // First toggle adds u; the second removes it again.
                    assert(forall|x: int| 0 <= x < vs.len() ==> vs[x] != u);
                    assert(e1 == e.update(i, (k, vs.push(u))));
                    lemma_votes_update(e, i, vs.push(u));
                    assert(kinds_of(e1) == kinds_of(e));
                    lemma_kind_index_same_kinds(e, e1, k);
                    assert(spec_kind_index(e1, k) == Some(i));
                    assert(e1[i].1 == vs.push(u));
                    assert(vs.push(u)[vs.len() as int] == u);
                    assert(forall|x: int| 0 <= x < vs.len() ==> vs.push(u)[x] == vs[x]);
                    lemma_find_index_first(vs.push(u), u, vs.len() as int);
                    assert(e1[i].0 == k);
                    assert(e2 == e1.update(i, (k, vs.push(u).remove(vs.len() as int))));
                    assert(a1 == true && a2 == false);
                    lemma_votes_update(e1, i, vs.push(u).remove(vs.len() as int));
                    assert(vs.push(u).remove(vs.len() as int) =~= vs);
                    assert forall|k2: Reaction| spec_vote_set(e2, k2) == spec_vote_set(
                        e,
                        k2,
                    ) by {
                        if k2 == k {
                            assert(spec_votes(e2, k) == vs);
                        } else {
                            assert(spec_votes(e1, k2) == spec_votes(e, k2));
                            assert(spec_votes(e2, k2) == spec_votes(e1, k2));
                        }
                    }
                },
            }
        },
    }
}

/// Toggle independence: a toggle of one kind never changes the vote list
/// of any other kind.
pub proof fn lemma_toggle_independence(e: Entries, k1: Reaction, k2: Reaction, u: UserId)
    requires
        wf_entries(e),
        k1 != k2,
    ensures
        spec_votes(spec_toggle(e, k1, u).0, k2) == spec_votes(e, k2),
{
    lemma_find_index_spec(kinds_of(e), k1);
    match spec_kind_index(e, k1) {
        None => {
            lemma_votes_push_other(e, k2, k1, seq![u]);
        },
        Some(i) => {
            assert(kinds_of(e)[i] == k1);
            assert(e[i].0 == k1);
            let vs = e[i].1;
            match find_index(vs, u) {
                Some(j) => {
                    lemma_votes_update(e, i, vs.remove(j));
                },
                None => {
                    lemma_votes_update(e, i, vs.push(u));
                },
            }
        },
    }
}

} // verus!
