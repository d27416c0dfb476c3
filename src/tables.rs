//! Small keyed collections of the game state: the answers given per player,
//! and sets of players (skip and restart requests), both held in hash tables
//! keyed by the players' ids.

use vstd::prelude::*;

use std::collections::{HashMap, HashSet};

use vstd::std_specs::hash::{spec_hash_keys_iter, spec_hash_map_iter};
use vstd::std_specs::iter::IteratorSpec;

use crate::model::{Answer, PlayerId};

verus! {

broadcast use vstd::std_specs::hash::group_hash_axioms;

/// The map that a list of entries stands for; a later entry for a key wins.
pub open spec fn entries_map(s: Seq<(PlayerId, Answer)>) -> Map<PlayerId, Answer>
    decreases s.len(),
{
    if s.len() == 0 {
        Map::empty()
    } else {
        entries_map(s.drop_last()).insert(s.last().0, s.last().1)
    }
}

pub open spec fn keys_unique(s: Seq<(PlayerId, Answer)>) -> bool {
    forall|i: int, j: int| 0 <= i < j < s.len() ==> #[trigger] s[i].0 != #[trigger] s[j].0
}

pub proof fn lemma_entries_map_dom(s: Seq<(PlayerId, Answer)>, k: PlayerId)
    ensures
        entries_map(s).dom().contains(k) <==> exists|i: int| 0 <= i < s.len() && #[trigger] s[i].0 == k,
    decreases s.len(),
{
    if s.len() > 0 {
        lemma_entries_map_dom(s.drop_last(), k);
        if entries_map(s.drop_last()).dom().contains(k) {
            let i = choose|i: int| 0 <= i < s.drop_last().len() && #[trigger] s.drop_last()[i].0 == k;
            assert(s[i].0 == k);
        }
        if exists|i: int| 0 <= i < s.len() && #[trigger] s[i].0 == k {
            let i = choose|i: int| 0 <= i < s.len() && #[trigger] s[i].0 == k;
            if i < s.len() - 1 {
                assert(s.drop_last()[i].0 == k);
            }
        }
    }
}

pub proof fn lemma_entries_map_get(s: Seq<(PlayerId, Answer)>, i: int)
    requires
        keys_unique(s),
        0 <= i < s.len(),
    ensures
        entries_map(s).dom().contains(s[i].0),
        entries_map(s)[s[i].0] == s[i].1,
    decreases s.len(),
{
    if i < s.len() - 1 {
        assert(s.drop_last()[i] == s[i]);
        lemma_entries_map_get(s.drop_last(), i);
        assert(s.last().0 != s[i].0);
    }
}

/// The answer each player has given to the current question.
#[derive(Clone, PartialEq, Eq, Debug)]
pub struct PlayerAnswers {
    map: HashMap<u128, Answer>,
}

impl View for PlayerAnswers {
    type V = Map<PlayerId, Answer>;

    closed spec fn view(&self) -> Map<PlayerId, Answer> {
        Map::new(|id: PlayerId| self.map@.contains_key(id.0), |id: PlayerId| self.map@[id.0])
    }
}

impl PlayerAnswers {
    pub fn new() -> (r: PlayerAnswers)
        ensures
            r@ == Map::<PlayerId, Answer>::empty(),
    {
        let r = PlayerAnswers { map: HashMap::new() };
        assert(r@ =~= Map::<PlayerId, Answer>::empty());
        r
    }

    /// Records `answer` for `id`, replacing an earlier answer of that player.
    pub fn insert(&mut self, id: PlayerId, answer: Answer)
        ensures
            final(self)@ == old(self)@.insert(id, answer),
    {
        self.map.insert(id.0, answer);
        assert(final(self)@ =~= old(self)@.insert(id, answer));
    }

    pub fn get(&self, id: PlayerId) -> (r: Option<Answer>)
        ensures
            r == (if self@.dom().contains(id) { Some(self@[id]) } else { None::<Answer> }),
    {
        match self.map.get(&id.0) {
            Some(a) => Some(*a),
            None => None,
        }
    }

    pub fn contains_key(&self, id: PlayerId) -> (r: bool)
        ensures
            r == self@.dom().contains(id),
    {
        self.get(id).is_some()
    }

    /// The entries, one per player, in no particular order.
    pub fn to_entries(&self) -> (r: Vec<(PlayerId, Answer)>)
        ensures
            keys_unique(r@),
            entries_map(r@) == self@,
    {
        let mut r: Vec<(PlayerId, Answer)> = Vec::new();
        let ghost seq = spec_hash_map_iter(&self.map).remaining();
        for (k, v) in it: self.map.iter()
            invariant
                it.seq() == seq,
                r@.len() == it.index(),
                forall|j: int|
                    0 <= j < r@.len() ==> #[trigger] r@[j] == (PlayerId(*it.seq()[j].0), *it.seq()[j].1),
        {
            r.push((PlayerId(*k), *v));
        }
        proof {
            assert(r@.len() == seq.len());
            assert(keys_unique(r@)) by {
                assert forall|a: int, b: int| 0 <= a < b < r@.len() implies #[trigger] r@[a].0
                    != #[trigger] r@[b].0 by {
                    if r@[a].0 == r@[b].0 {
                        assert(self.map@.contains_key(*seq[a].0) && self.map@[*seq[a].0] == *seq[a].1);
                        assert(self.map@.contains_key(*seq[b].0) && self.map@[*seq[b].0] == *seq[b].1);
                        assert(seq[a] == seq[b]);
                    }
                }
            }
            assert forall|id: PlayerId| #[trigger] entries_map(r@).dom().contains(id) == self@.dom().contains(id) by {
                lemma_entries_map_dom(r@, id);
                if self@.dom().contains(id) {
                    assert(self.map@.contains_key(id.0));
                    assert(seq.contains((&id.0, &self.map@[id.0])));
                    let j = choose|j: int| 0 <= j < seq.len() && seq[j] == (&id.0, &self.map@[id.0]);
                    assert(r@[j].0 == id);
                }
                if exists|j: int| 0 <= j < r@.len() && #[trigger] r@[j].0 == id {
                    let j = choose|j: int| 0 <= j < r@.len() && #[trigger] r@[j].0 == id;
                    assert(self.map@.contains_key(*seq[j].0));
                }
            }
            assert forall|id: PlayerId| #[trigger] self@.dom().contains(id) implies entries_map(r@)[id] == self@[id] by {
                assert(seq.contains((&id.0, &self.map@[id.0])));
                let j = choose|j: int| 0 <= j < seq.len() && seq[j] == (&id.0, &self.map@[id.0]);
                assert(r@[j] == (id, self.map@[id.0]));
                lemma_entries_map_get(r@, j);
            }
            assert(entries_map(r@) =~= self@);
        }
        r
    }
}

/// A set of players.
#[derive(PartialEq, Eq, Debug)]
pub struct PlayerIdSet {
    ids: HashSet<u128>,
}

impl View for PlayerIdSet {
    type V = Set<PlayerId>;

    closed spec fn view(&self) -> Set<PlayerId> {
        Set::new(|id: PlayerId| self.ids@.contains(id.0))
    }
}

impl Clone for PlayerIdSet {
    /// A set with the same members.
    fn clone(&self) -> (r: PlayerIdSet)
        ensures
            r@ == self@,
    {
        let ids = self.to_ids();
        let mut r = PlayerIdSet::new();
        let mut i: usize = 0;
        while i < ids.len()
            invariant
                i <= ids.len(),
                forall|k: int| 0 <= k < i ==> r@.contains(#[trigger] ids@[k]),
                forall|id: PlayerId| r@.contains(id) ==> ids@.contains(id),
            decreases ids.len() - i,
        {
            r.insert(ids[i]);
            i = i + 1;
        }
        assert forall|id: PlayerId| self@.contains(id) implies r@.contains(id) by {
            let k = choose|k: int| 0 <= k < ids@.len() && ids@[k] == id;
        }
        assert(r@ =~= self@);
        r
    }
}

impl PlayerIdSet {
    pub fn new() -> (r: PlayerIdSet)
        ensures
            r@ == Set::<PlayerId>::empty(),
    {
        let r = PlayerIdSet { ids: HashSet::new() };
        assert(r@ =~= Set::<PlayerId>::empty());
        r
    }

    pub fn contains(&self, id: PlayerId) -> (r: bool)
        ensures
            r == self@.contains(id),
    {
        self.ids.contains(&id.0)
    }

    /// Adds `id`; a member is not added twice.
    pub fn insert(&mut self, id: PlayerId)
        ensures
            final(self)@ == old(self)@.insert(id),
    {
        self.ids.insert(id.0);
        assert(final(self)@ =~= old(self)@.insert(id));
    }

    /// The members, in no particular order.
    pub fn to_ids(&self) -> (r: Vec<PlayerId>)
        ensures
            forall|id: PlayerId| r@.contains(id) <==> self@.contains(id),
    {
        let mut r: Vec<PlayerId> = Vec::new();
        let ghost seq = spec_hash_keys_iter(&self.ids).remaining();
        for k in it: self.ids.iter()
            invariant
                it.seq() == seq,
                r@.len() == it.index(),
                forall|j: int| 0 <= j < r@.len() ==> #[trigger] r@[j] == PlayerId(*it.seq()[j]),
        {
            r.push(PlayerId(*k));
        }
        proof {
            assert(r@.len() == seq.len());
            assert(seq.unref().to_set() == self.ids@);
            assert forall|id: PlayerId| r@.contains(id) <==> self@.contains(id) by {
                if r@.contains(id) {
                    let j = choose|j: int| 0 <= j < r@.len() && r@[j] == id;
                    assert(seq.unref()[j] == id.0);
                    assert(seq.unref().to_set().contains(id.0));
                }
                if self@.contains(id) {
                    assert(seq.unref().to_set().contains(id.0));
                    assert(seq.unref().contains(id.0));
                    let j = choose|j: int| 0 <= j < seq.unref().len() && seq.unref()[j] == id.0;
                    assert(r@[j] == id);
                }
            }
        }
        r
    }
}

} // verus!
