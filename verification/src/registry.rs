//! The player registry: the authoritative store of currently-connected
//! players.
//!
//! The registry is a mapping from player identifier to player record with at
//! most one record per identifier.  In the running server every operation is
//! performed under one mutual-exclusion boundary (the binary wraps the
//! registry in a lock), so each method here models one atomic critical
//! section: in particular [`Registry::try_insert`] is the single
//! check-then-insert step that makes a race between two joins with the same
//! identifier yield exactly one winner.
use vstd::prelude::*;
use vstd::map::*;

use crate::messages::Player;
use crate::messages::PlayerView;
use crate::messages::wf_player_view;

verus! {

/// Whether some record in `s` carries the identifier `id`.
pub open spec fn seq_contains_id(s: Seq<PlayerView>, id: Seq<char>) -> bool {
    exists|k: int| 0 <= k < s.len() && (#[trigger] s[k]).id == id
}

/// The index of the record carrying `id` (meaningful only when present and
/// unique).
pub open spec fn seq_idx_of(s: Seq<PlayerView>, id: Seq<char>) -> int {
    choose|k: int| 0 <= k < s.len() && (#[trigger] s[k]).id == id
}

/// No two records in `s` carry the same identifier.
pub open spec fn unique_ids(s: Seq<PlayerView>) -> bool {
    forall|i: int, j: int|
        0 <= i < s.len() && 0 <= j < s.len() && (#[trigger] s[i]).id == (#[trigger] s[j]).id
            ==> i == j
}

/// The mapping from identifier to record that a record sequence denotes.
pub open spec fn map_of(s: Seq<PlayerView>) -> Map<Seq<char>, PlayerView> {
    Map::new(|id: Seq<char>| seq_contains_id(s, id), |id: Seq<char>| s[seq_idx_of(s, id)])
}

/// Under uniqueness, any record of `s` is exactly what the denoted map gives
/// for its identifier.
pub proof fn lemma_map_of_index(s: Seq<PlayerView>, k: int)
    requires
        unique_ids(s),
        0 <= k < s.len(),
    ensures
        map_of(s).contains_key(s[k].id),
        map_of(s)[s[k].id] == s[k],
{
    assert(seq_contains_id(s, s[k].id));
    let j = seq_idx_of(s, s[k].id);
    assert(0 <= j < s.len() && s[j].id == s[k].id);
}

/// The registry.  `entries` is ordered by insertion; the abstract value is
/// the identifier-to-record map [`map_of`] of its records.
pub struct Registry {
    entries: Vec<Player>,
}

impl View for Registry {
    type V = Map<Seq<char>, PlayerView>;

    closed spec fn view(&self) -> Map<Seq<char>, PlayerView> {
        map_of(self.entries.deep_view())
    }
}

impl Registry {
    /// The records in insertion order.
    pub closed spec fn seq_view(&self) -> Seq<PlayerView> {
        self.entries.deep_view()
    }

    /// The identifiers in insertion order.
    pub open spec fn ids(&self) -> Seq<Seq<char>> {
        Seq::new(self.seq_view().len(), |k: int| self.seq_view()[k].id)
    }

    /// Registry invariant: identifiers are unique and every record is
    /// well formed.
    pub open spec fn wf(&self) -> bool {
        &&& unique_ids(self.seq_view())
        &&& forall|k: int|
            0 <= k < self.seq_view().len() ==> wf_player_view(#[trigger] self.seq_view()[k])
    }

    /// The map view is exactly the denotation of the record sequence.
    pub proof fn lemma_view_map(&self)
        ensures
            self@ == map_of(self.seq_view()),
    {
    }

    /// An empty registry.
    pub fn new() -> (r: Registry)
        ensures
            r.wf(),
            r@ == Map::<Seq<char>, PlayerView>::empty(),
            r.seq_view() == Seq::<PlayerView>::empty(),
    {
        let r = Registry { entries: Vec::new() };
        proof {
            assert(r@ =~= Map::<Seq<char>, PlayerView>::empty());
        }
        r
    }

    /// The index of the record bound to `id`, if any.
    fn index_of(&self, id: &String) -> (r: Option<usize>)
        ensures
            match r {
                Some(k) => k < self.seq_view().len() && self.seq_view()[k as int].id == id@,
                None => !seq_contains_id(self.seq_view(), id@),
            },
    {
        let mut i: usize = 0;
        while i < self.entries.len()
            invariant
                0 <= i <= self.entries.len(),
                forall|k: int| 0 <= k < i ==> (#[trigger] self.seq_view()[k]).id != id@,
            decreases self.entries.len() - i,
        {
            if self.entries[i].id == *id {
                return Some(i);
            }
            i += 1;
        }
        None
    }

    /// Whether `id` is currently registered.
    pub fn contains(&self, id: &String) -> (r: bool)
        ensures
            r == self@.contains_key(id@),
    {
        match self.index_of(id) {
            Some(k) => {
                proof {
                    assert(seq_contains_id(self.seq_view(), id@));
                }
                true
            },
            None => false,
        }
    }

    /// Inserts `p` under its identifier iff that identifier is absent;
    /// returns whether the insert happened.  This whole check-then-insert is
    /// one critical section: of any number of concurrent joins with the same
    /// identifier, exactly the first to enter it succeeds.
    pub fn try_insert(&mut self, p: Player) -> (r: bool)
        requires
            old(self).wf(),
            p.wf(),
        ensures
            final(self).wf(),
            r == !old(self)@.contains_key(p.id@),
            r ==> final(self).seq_view() == old(self).seq_view().push(p.deep_view()),
            r ==> final(self)@ == old(self)@.insert(p.id@, p.deep_view()),
            !r ==> *final(self) == *old(self),
    {
        match self.index_of(&p.id) {
            Some(k) => {
                proof {
                    assert(seq_contains_id(self.seq_view(), p.id@));
                }
                false
            },
            None => {
                let ghost s0 = self.seq_view();
                self.entries.push(p);
                proof {
                    let s1 = self.seq_view();
                    assert(s1 =~= s0.push(p.deep_view()));
                    assert forall|i: int, j: int|
                        0 <= i < s1.len() && 0 <= j < s1.len() && (#[trigger] s1[i]).id
                            == (#[trigger] s1[j]).id implies i == j by {
                        if i < s0.len() && j == s0.len() {
                            assert(seq_contains_id(s0, s0[i].id));
                        }
                        if j < s0.len() && i == s0.len() {
                            assert(seq_contains_id(s0, s0[j].id));
                        }
                    }
                    let m1 = map_of(s1);
                    let m2 = old(self)@.insert(p.id@, p.deep_view());
                    assert forall|id: Seq<char>|
                        ((#[trigger] m1.contains_key(id)) <==> m2.contains_key(id)) && (
                        m1.contains_key(id) ==> m1[id] == m2[id]) by {
                        if id == p.id@ {
                            lemma_map_of_index(s1, s0.len() as int);
                        } else {
                            if seq_contains_id(s0, id) {
                                let k = seq_idx_of(s0, id);
                                lemma_map_of_index(s0, k);
                                lemma_map_of_index(s1, k);
                            } else {
                                if seq_contains_id(s1, id) {
                                    let k = choose|k: int|
                                        0 <= k < s1.len() && (#[trigger] s1[k]).id == id;
                                    assert(k == s0.len());
                                }
                            }
                        }
                    }
                    assert(m1 =~= m2);
                }
                true
            },
        }
    }

    /// Moves the record for `id` to the given position; silently a no-op if
    /// `id` is absent (the update arrived after that player already left).
    /// Order and identifiers of the records are unchanged.
    pub fn update(&mut self, id: &String, x: crate::messages::Coord, y: crate::messages::Coord, z: crate::messages::Coord)
        requires
            old(self).wf(),
            x.wf(),
            y.wf(),
            z.wf(),
        ensures
            final(self).wf(),
            final(self).ids() == old(self).ids(),
            old(self)@.contains_key(id@) ==> final(self)@ == old(self)@.insert(
                id@,
                PlayerView { x: x@, y: y@, z: z@, ..old(self)@[id@] },
            ),
            old(self)@.contains_key(id@) ==> final(self).seq_view() == old(self).seq_view().update(
                seq_idx_of(old(self).seq_view(), id@),
                PlayerView {
                    x: x@,
                    y: y@,
                    z: z@,
                    ..old(self).seq_view()[seq_idx_of(old(self).seq_view(), id@)]
                },
            ),
            !old(self)@.contains_key(id@) ==> *final(self) == *old(self),
    {
        let ghost s0 = self.seq_view();
        match self.index_of(id) {
            Some(k) => {
                let p = &self.entries[k];
                let np = Player {
                    id: p.id.clone(),
                    name: p.name.clone(),
                    x,
                    y,
                    z,
                };
                self.entries.set(k, np);
                proof {
                    let s1 = self.seq_view();
                    let nv = PlayerView { x: x@, y: y@, z: z@, ..s0[k as int] };
                    assert(seq_contains_id(s0, id@));
                    let j = seq_idx_of(s0, id@);
                    assert(0 <= j < s0.len() && s0[j].id == id@);
                    assert(j == k);
                    assert(s1 =~= s0.update(k as int, nv));
                    assert(final(self).ids() =~= old(self).ids());
                    lemma_map_of_index(s0, k as int);
                    assert forall|i: int| 0 <= i < s1.len() implies wf_player_view(
                        #[trigger] s1[i],
                    ) by {}
                    let m1 = map_of(s1);
                    let m2 = old(self)@.insert(id@, nv);
                    assert forall|id2: Seq<char>|
                        ((#[trigger] m1.contains_key(id2)) <==> m2.contains_key(id2)) && (
                        m1.contains_key(id2) ==> m1[id2] == m2[id2]) by {
                        if id2 == id@ {
                            lemma_map_of_index(s1, k as int);
                        } else {
                            if seq_contains_id(s0, id2) {
                                let j = seq_idx_of(s0, id2);
                                lemma_map_of_index(s0, j);
                                assert(j != k);
                                lemma_map_of_index(s1, j);
                            } else {
                                if seq_contains_id(s1, id2) {
                                    let j = choose|j: int|
                                        0 <= j < s1.len() && (#[trigger] s1[j]).id == id2;
                                    assert(s0[j].id == id2);
                                }
                            }
                        }
                    }
                    assert(m1 =~= m2);
                }
            },
            None => {},
        }
    }

    /// Removes the record for `id`; returns whether one existed.
    pub fn remove(&mut self, id: &String) -> (r: bool)
        requires
            old(self).wf(),
        ensures
            final(self).wf(),
            r == old(self)@.contains_key(id@),
            final(self)@ == old(self)@.remove(id@),
            r ==> final(self).seq_view() == old(self).seq_view().remove(
                seq_idx_of(old(self).seq_view(), id@),
            ),
            !r ==> *final(self) == *old(self),
    {
        let ghost s0 = self.seq_view();
        match self.index_of(id) {
            Some(k) => {
                self.entries.remove(k);
                proof {
                    let s1 = self.seq_view();
                    assert(seq_contains_id(s0, id@));
                    let j = seq_idx_of(s0, id@);
                    assert(0 <= j < s0.len() && s0[j].id == id@);
                    assert(j == k);
                    assert(s1 =~= s0.remove(k as int));
                    lemma_map_of_index(s0, k as int);
                    assert forall|i: int, j: int|
                        0 <= i < s1.len() && 0 <= j < s1.len() && (#[trigger] s1[i]).id
                            == (#[trigger] s1[j]).id implies i == j by {
                        let i0 = if i < k { i } else { i + 1 };
                        let j0 = if j < k { j } else { j + 1 };
                        assert(s1[i] == s0[i0]);
                        assert(s1[j] == s0[j0]);
                    }
                    let m1 = map_of(s1);
                    let m2 = old(self)@.remove(id@);
                    assert forall|id2: Seq<char>|
                        ((#[trigger] m1.contains_key(id2)) <==> m2.contains_key(id2)) && (
                        m1.contains_key(id2) ==> m1[id2] == m2[id2]) by {
                        if id2 != id@ {
                            if seq_contains_id(s0, id2) {
                                let j = seq_idx_of(s0, id2);
                                lemma_map_of_index(s0, j);
                                assert(j != k);
                                let j1 = if j < k { j } else { j - 1 };
                                assert(s1[j1] == s0[j]);
                                lemma_map_of_index(s1, j1);
                            } else {
                                if seq_contains_id(s1, id2) {
                                    let j = choose|j: int|
                                        0 <= j < s1.len() && (#[trigger] s1[j]).id == id2;
                                    let j0 = if j < k { j } else { j + 1 };
                                    assert(s1[j] == s0[j0]);
                                }
                            }
                        } else {
                            if seq_contains_id(s1, id@) {
                                let j = choose|j: int|
                                    0 <= j < s1.len() && (#[trigger] s1[j]).id == id@;
                                let j0 = if j < k { j } else { j + 1 };
                                assert(s1[j] == s0[j0]);
                                assert(j0 == k);
                            }
                        }
                    }
                    assert(m1 =~= m2);
                }
                true
            },
            None => {
                proof {
                    assert(final(self)@ =~= old(self)@.remove(id@));
                }
                false
            },
        }
    }

    /// A consistent point-in-time copy of all records, in insertion order.
    /// Taken under the same exclusion as the writes, so no torn record can
    /// be observed.
    pub fn snapshot(&self) -> (r: Vec<Player>)
        ensures
            r.deep_view() == self.seq_view(),
    {
        let r = crate::messages::clone_players(&self.entries);
        proof {
            assert(r.deep_view() =~= self.seq_view());
        }
        r
    }
}

} // verus!
