//! A keyed table of live entities. Mutation goes through `with_mut`, which
//! holds the table exclusively for the duration of the update.

use vstd::prelude::*;
use std::collections::HashMap;
use crate::error::RoomError;
use crate::game::position_of;

verus! {

broadcast use vstd::std_specs::hash::group_hash_axioms;

/// The `i`-th identifier tried from `start`, wrapping.
pub open spec fn probe(start: u64, i: u64) -> u64 {
    if start + i > u64::MAX {
        (start + i - 0x1_0000_0000_0000_0000) as u64
    } else {
        (start + i) as u64
    }
}

/// Entities keyed by identifier.
pub struct DataTable<T> {
    map: HashMap<u64, T>,
    /// The identifiers present, each once, for listing.
    ids: Vec<u64>,
}

impl<T> View for DataTable<T> {
    type V = Map<u64, T>;

    closed spec fn view(&self) -> Map<u64, T> {
        self.map@
    }
}

impl<T> DataTable<T> {
    pub closed spec fn wf(&self) -> bool {
        &&& self.ids@.no_duplicates()
        &&& forall|k: u64| self.map@.contains_key(k) <==> self.ids@.contains(k)
    }

    /// The identifiers in listing order.
    pub closed spec fn keys(&self) -> Seq<u64> {
        self.ids@
    }

    pub proof fn lemma_keys(&self)
        requires
            self.wf(),
        ensures
            self.keys().no_duplicates(),
            forall|k: u64| self@.contains_key(k) <==> self.keys().contains(k),
            self@.dom().finite(),
            self@.dom().len() == self.keys().len(),
    {
        self.ids@.unique_seq_to_set();
        assert(self.map@.dom() =~= self.ids@.to_set());
    }

    pub fn new() -> (r: Self)
        ensures
            r.wf(),
            r@ == Map::<u64, T>::empty(),
    {
        let r = DataTable { map: HashMap::new(), ids: Vec::new() };
        assert(r.map@ =~= Map::<u64, T>::empty());
        r
    }

    /// The number of entities held.
    pub fn len(&self) -> (r: usize)
        requires
            self.wf(),
        ensures
            r == self@.dom().len(),
    {
        proof {
            self.lemma_keys();
        }
        self.ids.len()
    }

    pub fn contains(&self, id: u64) -> (r: bool)
        requires
            self.wf(),
        ensures
            r == self@.contains_key(id),
    {
        self.map.contains_key(&id)
    }

    /// The entity under `id`, if any.
    pub fn get(&self, id: u64) -> (r: Option<&T>)
        ensures
            match r {
                Some(v) => self@.contains_key(id) && *v == self@[id],
                None => !self@.contains_key(id),
            },
    {
        self.map.get(&id)
    }

    /// Stores `value` under `id`, handing back what was there before.
    pub fn insert(&mut self, id: u64, value: T) -> (r: Option<T>)
        requires
            old(self).wf(),
        ensures
            final(self).wf(),
            final(self)@ == old(self)@.insert(id, value),
            match r {
                Some(v) => old(self)@.contains_key(id) && v == old(self)@[id],
                None => !old(self)@.contains_key(id),
            },
    {
        let r = self.map.insert(id, value);
        if r.is_none() {
            self.ids.push(id);
            proof {
                assert forall|a: int, b: int| 0 <= a < b < self.ids@.len() implies self.ids@[a]
                    != self.ids@[b] by {
                    if b == self.ids@.len() - 1 {
                        assert(old(self).ids@.contains(self.ids@[a]));
                    }
                }
            }
        }
        proof {
            assert forall|k: u64| self.map@.contains_key(k) <==> self.ids@.contains(k) by {
                if k == id && r.is_none() {
                    assert(self.ids@[self.ids@.len() - 1] == id);
                }
                if k == id && r.is_some() {
                    assert(old(self).ids@.contains(id));
                    let j = choose|j: int| 0 <= j < old(self).ids@.len() && old(self).ids@[j] == k;
                    assert(self.ids@[j] == k);
                }
                if r.is_none() && k != id && self.ids@.contains(k) {
                    let j = choose|j: int| 0 <= j < self.ids@.len() && self.ids@[j] == k;
                    assert(old(self).ids@[j] == k);
                }
                if old(self).ids@.contains(k) {
                    let j = choose|j: int| 0 <= j < old(self).ids@.len() && old(self).ids@[j] == k;
                    assert(self.ids@[j] == k);
                }
            }
        }
        r
    }

    /// Takes the entity under `id` out of the table.
    pub fn remove(&mut self, id: u64) -> (r: Option<T>)
        requires
            old(self).wf(),
        ensures
            final(self).wf(),
            final(self)@ == old(self)@.remove(id),
            match r {
                Some(v) => old(self)@.contains_key(id) && v == old(self)@[id],
                None => !old(self)@.contains_key(id),
            },
    {
        let r = self.map.remove(&id);
        if r.is_some() {
            let i = position_of(&self.ids, id).unwrap();
            let ghost before = self.ids@;
            self.ids.remove(i);
            proof {
                assert(before[i as int] == id);
                assert forall|a: int, b: int| 0 <= a < b < self.ids@.len() implies self.ids@[a]
                    != self.ids@[b] by {
                    let a0 = if a < i { a } else { a + 1 };
                    let b0 = if b < i { b } else { b + 1 };
                    assert(before[a0] == self.ids@[a]);
                    assert(before[b0] == self.ids@[b]);
                }
                assert forall|k: u64| self.map@.contains_key(k) <==> self.ids@.contains(k) by {
                    if before.contains(k) && k != id {
                        let j = choose|j: int| 0 <= j < before.len() && before[j] == k;
                        let j2 = if j < i { j } else { j - 1 };
                        assert(self.ids@[j2] == k);
                    }
                    if self.ids@.contains(k) {
                        let j = choose|j: int| 0 <= j < self.ids@.len() && self.ids@[j] == k;
                        let j0 = if j < i { j } else { j + 1 };
                        assert(before[j0] == k);
                    }
                }
            }
        } else {
            assert(self.map@ =~= old(self).map@.remove(id));
        }
        r
    }

    /// Runs `f` on the entity under `id` with the table held exclusively, puts
    /// back the entity that `f` returns and hands back `f`'s answer. `None`
    /// when nothing is stored under `id`; then nothing changes.
    pub fn with_mut<R, F: FnOnce(T) -> (T, R)>(&mut self, id: u64, f: F) -> (r: Option<R>)
        requires
            old(self).wf(),
            old(self)@.contains_key(id) ==> f.requires((old(self)@[id],)),
        ensures
            final(self).wf(),
            !old(self)@.contains_key(id) ==> r.is_none() && final(self)@ == old(self)@,
            old(self)@.contains_key(id) ==> exists|v: T, x: R|
                f.ensures((old(self)@[id],), (v, x)) && r == Some(x) && final(self)@ == old(
                    self,
                )@.insert(id, v),
    {
        match self.map.remove(&id) {
            None => {
                assert(self.map@ =~= old(self).map@);
                None
            },
            Some(v) => {
                let (nv, x) = f(v);
                self.map.insert(id, nv);
                assert(self.map@ =~= old(self).map@.insert(id, nv));
                assert forall|k: u64| self.map@.contains_key(k) <==> self.ids@.contains(k) by {
                    assert(old(self).map@.contains_key(k) <==> old(self).ids@.contains(k));
                }
                Some(x)
            },
        }
    }

    /// The identifiers held, each once, as of the call.
    pub fn ids(&self) -> (r: Vec<u64>)
        requires
            self.wf(),
        ensures
            r@ == self.keys(),
    {
        let mut r: Vec<u64> = Vec::new();
        let mut i: usize = 0;
        while i < self.ids.len()
            invariant
                i <= self.ids.len(),
                r@ == self.ids@.subrange(0, i as int),
            decreases self.ids.len() - i,
        {
            r.push(self.ids[i]);
            i += 1;
        }
        assert(r@ =~= self.ids@);
        r
    }

    /// A fresh identifier: the first of `start`, `start + 1`, ... (wrapping)
    /// within `tries` attempts that is not in use, or `Exhausted`.
    pub fn fresh_id(&self, start: u64, tries: u64) -> (r: Result<u64, RoomError>)
        requires
            self.wf(),
        ensures
            match r {
                Ok(id) => !self@.contains_key(id) && exists|j: u64| j < tries && id == probe(start, j)
                    && forall|i: u64| i < j ==> self@.contains_key(#[trigger] probe(start, i)),
                Err(e) => e == RoomError::Exhausted && forall|i: u64|
                    i < tries ==> self@.contains_key(#[trigger] probe(start, i)),
            },
    {
        let mut n: u64 = 0;
        let mut id: u64 = start;
        while n < tries
            invariant
                n <= tries,
                id == probe(start, n),
                forall|i: u64| i < n ==> self@.contains_key(#[trigger] probe(start, i)),
            decreases tries - n,
        {
            if !self.map.contains_key(&id) {
                return Ok(id);
            }
            n += 1;
            id = start.wrapping_add(n);
        }
        Err(RoomError::Exhausted)
    }
}

} // verus!
