//! A set of strings, kept as a list without repetitions.

use vstd::prelude::*;
use crate::ledger::Text;

verus! {

/// A finite set of strings. Its view is the set of their character
/// sequences.
pub struct TextSet {
    ids: Vec<String>,
}

impl View for TextSet {
    type V = Set<Text>;

    closed spec fn view(&self) -> Set<Text> {
        self.ids.deep_view().to_set()
    }
}

impl TextSet {
    /// No string is listed twice.
    #[verifier::type_invariant]
    spec fn listed_once(&self) -> bool {
        self.ids.deep_view().no_duplicates()
    }

    /// The empty set.
    pub fn new() -> (s: Self)
        ensures
            s@ == Set::<Text>::empty(),
    {
        let s = TextSet { ids: Vec::new() };
        assert(s@ =~= Set::<Text>::empty());
        s
    }

    /// Where `id` stands in the list, if it is a member.
    fn position(&self, id: &String) -> (r: Option<usize>)
        ensures
            match r {
                Some(i) => i < self.ids@.len() && self.ids.deep_view()[i as int] == id@,
                None => !self@.contains(id@),
            },
    {
        let mut i: usize = 0;
        while i < self.ids.len()
            invariant
                i <= self.ids@.len(),
                forall|j: int| 0 <= j < i ==> self.ids.deep_view()[j] != id@,
            decreases self.ids@.len() - i,
        {
            if self.ids[i] == *id {
                return Some(i);
            }
            i += 1;
        }
        None
    }

    /// Adds `id` to the set, and says whether it was new.
    pub fn insert(&mut self, id: String) -> (added: bool)
        ensures
            final(self)@ == old(self)@.insert(id@),
            added == !old(self)@.contains(id@),
    {
        proof {
            use_type_invariant(&*self);
        }
        match self.position(&id) {
            Some(i) => {
                assert(self.ids.deep_view().contains(id@));
                assert(self@.insert(id@) =~= self@);
                false
            },
            None => {
                let ghost before = self.ids.deep_view();
                let mut ids: Vec<String> = Vec::new();
                std::mem::swap(&mut ids, &mut self.ids);
                ids.push(id);
                proof {
                    assert(ids.deep_view() =~= before.push(id@));
                    assert(!before.contains(id@));
                    assert(before.push(id@).no_duplicates());
                    before.lemma_push_to_set_commute(id@);
                }
                self.ids = ids;
                true
            },
        }
    }

    /// Takes `id` out of the set, and says whether it was a member.
    pub fn remove(&mut self, id: &String) -> (removed: bool)
        ensures
            final(self)@ == old(self)@.remove(id@),
            removed == old(self)@.contains(id@),
    {
        proof {
            use_type_invariant(&*self);
        }
        match self.position(id) {
            Some(i) => {
                let ghost before = self.ids.deep_view();
                assert(before.contains(id@));
                let mut ids: Vec<String> = Vec::new();
                std::mem::swap(&mut ids, &mut self.ids);
                ids.swap_remove(i);
                let ghost after = ids.deep_view();
                assert(after =~= before.update(i as int, before.last()).drop_last());
                assert(after.no_duplicates());
                self.ids = ids;
                assert forall|t: Text| after.to_set().contains(t) <==> before.to_set().remove(
                    id@,
                ).contains(t) by {
                    if after.contains(t) {
                        let k = choose|k: int| 0 <= k < after.len() && after[k] == t;
                        if k == i {
                            assert(before[before.len() - 1] == t);
                        } else {
                            assert(before[k] == t);
                        }
                    }
                    if before.contains(t) && t != id@ {
                        let k = choose|k: int| 0 <= k < before.len() && before[k] == t;
                        if k == before.len() - 1 {
                            assert(after[i as int] == t);
                        } else {
                            assert(after[k] == t);
                        }
                    }
                }
                assert(self@ =~= old(self)@.remove(id@));
                true
            },
            None => {
                assert(self@.remove(id@) =~= self@);
                false
            },
        }
    }

    /// The members, each once, in no particular order.
    pub fn to_vec(&self) -> (v: Vec<String>)
        ensures
            v.deep_view().no_duplicates(),
            v.deep_view().to_set() == self@,
            v@.len() == self@.len(),
    {
        proof {
            use_type_invariant(self);
        }
        let mut v: Vec<String> = Vec::new();
        let mut i: usize = 0;
        while i < self.ids.len()
            invariant
                i <= self.ids@.len(),
                v.deep_view() =~= self.ids.deep_view().take(i as int),
            decreases self.ids@.len() - i,
        {
            let ghost copied = v.deep_view();
            v.push(self.ids[i].clone());
            assert(v.deep_view() =~= copied.push(self.ids.deep_view()[i as int]));
            i += 1;
        }
        assert(v.deep_view() =~= self.ids.deep_view());
        proof {
            v.deep_view().unique_seq_to_set();
        }
        v
    }
}

} // verus!
