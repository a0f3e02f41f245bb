//! An id-keyed collection that remembers the order in which its entries came.

use vstd::prelude::*;

verus! {

/// What a [`Registry`] holds: its ids in insertion order, and the entry of each.
#[verifier::ext_equal]
pub ghost struct Entries<V> {
    pub order: Seq<u32>,
    pub of: Map<u32, V>,
}

impl<V> Entries<V> {
    pub open spec fn empty() -> Self {
        Entries { order: Seq::empty(), of: Map::empty() }
    }

    /// Every id occurs once, and exactly the ids in `order` have an entry.
    pub open spec fn wf(self) -> bool {
        &&& self.order.no_duplicates()
        &&& forall|id: u32| #[trigger] self.of.contains_key(id) <==> self.order.contains(id)
    }

    pub open spec fn has(self, id: u32) -> bool {
        self.of.contains_key(id)
    }

    pub open spec fn at(self, id: u32) -> V {
        self.of[id]
    }

    /// The entry of `id` replaced; nothing changes where there is none.
    pub open spec fn set(self, id: u32, v: V) -> Self {
        if self.has(id) {
            Entries { order: self.order, of: self.of.insert(id, v) }
        } else {
            self
        }
    }

    /// A new entry, behind all others.
    pub open spec fn add_last(self, id: u32, v: V) -> Self {
        Entries { order: self.order.push(id), of: self.of.insert(id, v) }
    }

    /// The entry of `id` gone; nothing changes where there is none.
    pub open spec fn without(self, id: u32) -> Self {
        if self.has(id) {
            Entries { order: self.order.remove(self.order.index_of(id)), of: self.of.remove(id) }
        } else {
            self
        }
    }

    /// How many entries there are.
    pub open spec fn count(self) -> nat {
        self.order.len()
    }
}

/// Filtering one element more.
pub proof fn lemma_filter_step<A>(s: Seq<A>, i: int, p: spec_fn(A) -> bool)
    requires
        0 <= i < s.len(),
    ensures
        s.take(i + 1).filter(p) == (if p(s[i]) {
            s.take(i).filter(p).push(s[i])
        } else {
            s.take(i).filter(p)
        }),
{
    reveal(Seq::filter);
    assert(s.take(i + 1).drop_last() =~= s.take(i));
}

/// What a filter lets through was there before.
pub proof fn lemma_filter_from<A>(s: Seq<A>, p: spec_fn(A) -> bool, x: A)
    requires
        s.filter(p).contains(x),
    ensures
        s.contains(x),
        p(x),
    decreases s.len(),
{
    reveal(Seq::filter);
    if s.len() > 0 {
        let rest = s.drop_last();
        let i = s.filter(p).index_of(x);
        assert(s.filter(p)[i] == x);
        if p(s.last()) && i == rest.filter(p).len() {
            assert(s[s.len() - 1] == x);
        } else {
            assert(rest.filter(p)[i] == x);
            lemma_filter_from(rest, p, x);
            assert(s[rest.index_of(x)] == x);
        }
    }
}

/// Replacing an entry keeps a collection well formed and adds no id.
pub proof fn law_set<V>(e: Entries<V>, id: u32, v: V)
    requires
        e.wf(),
    ensures
        e.set(id, v).wf(),
        e.set(id, v).order == e.order,
        forall|k: u32| #[trigger] e.set(id, v).has(k) <==> e.has(k),
        e.has(id) ==> e.set(id, v).at(id) == v,
        forall|k: u32| k != id ==> #[trigger] e.set(id, v).at(k) == e.at(k),
{
}

/// Adding an entry under a new id keeps a collection well formed.
pub proof fn law_add_last<V>(e: Entries<V>, id: u32, v: V)
    requires
        e.wf(),
        !e.has(id),
    ensures
        e.add_last(id, v).wf(),
        forall|k: u32| #[trigger] e.add_last(id, v).has(k) <==> (e.has(k) || k == id),
        e.add_last(id, v).at(id) == v,
        forall|k: u32| k != id ==> #[trigger] e.add_last(id, v).at(k) == e.at(k),
{
    let f = e.add_last(id, v);
    assert forall|k: u32| #[trigger] f.of.contains_key(k) <==> f.order.contains(k) by {
        if e.order.contains(k) {
            let i = e.order.index_of(k);
            assert(f.order[i] == k);
        }
        assert(f.order[e.order.len() as int] == id);
    }
    assert(!e.order.contains(id));
}

/// Removing an entry keeps a collection well formed; the entry is gone and the others stay.
pub proof fn law_without<V>(e: Entries<V>, id: u32)
    requires
        e.wf(),
    ensures
        e.without(id).wf(),
        !e.without(id).has(id),
        forall|k: u32| #[trigger] e.without(id).has(k) <==> (e.has(k) && k != id),
        forall|k: u32| k != id ==> #[trigger] e.without(id).at(k) == e.at(k),
        e.has(id) ==> e.without(id).count() == e.count() - 1,
{
    if e.has(id) {
        let i = e.order.index_of(id);
        let f = e.without(id);
        assert(e.order.contains(id));
        assert(0 <= i < e.order.len() && e.order[i] == id);
        assert forall|k: u32| #[trigger] f.of.contains_key(k) <==> f.order.contains(k) by {
            if e.order.contains(k) && k != id {
                let j = e.order.index_of(k);
                if j < i {
                    assert(f.order[j] == k);
                } else {
                    assert(f.order[j - 1] == k);
                }
            }
            if f.order.contains(k) {
                let j = f.order.index_of(k);
                if j < i {
                    assert(e.order[j] == k);
                } else {
                    assert(e.order[j + 1] == k);
                }
            }
        }
    }
}

/// A map from creature (or spawn) id to `T` that lists its ids in insertion order.
pub struct Registry<T> {
    ids: Vec<u32>,
    entries: Vec<T>,
}

impl<T: View> View for Registry<T> {
    type V = Entries<T::V>;

    closed spec fn view(&self) -> Entries<T::V> {
        Entries {
            order: self.ids@,
            of: Map::new(
                |id: u32| self.ids@.contains(id),
                |id: u32| self.entries@[self.ids@.index_of(id)]@,
            ),
        }
    }
}

impl<T: View> Registry<T> {
    pub closed spec fn wf(&self) -> bool {
        &&& self.ids@.no_duplicates()
        &&& self.ids@.len() == self.entries@.len()
    }

    proof fn lemma_view(&self)
        requires
            self.wf(),
        ensures
            self@.wf(),
            forall|i: int|
                0 <= i < self.ids@.len() ==> self@.has(#[trigger] self.ids@[i])
                    && self@.at(self.ids@[i]) == self.entries@[i]@,
    {
        assert forall|i: int| 0 <= i < self.ids@.len() implies self@.has(
            #[trigger] self.ids@[i],
        ) && self@.at(self.ids@[i]) == self.entries@[i]@ by {
            assert(self.ids@.contains(self.ids@[i]));
            assert(self.ids@.index_of(self.ids@[i]) == i);
        }
    }

    pub fn new() -> (r: Self)
        ensures
            r.wf(),
            r@ == Entries::<T::V>::empty(),
    {
        let r = Registry { ids: Vec::new(), entries: Vec::new() };
        assert(r@ =~= Entries::<T::V>::empty());
        r
    }

    fn position(&self, id: u32) -> (r: Option<usize>)
        requires
            self.wf(),
        ensures
            match r {
                Some(i) => i < self.ids@.len() && self.ids@[i as int] == id,
                None => !self.ids@.contains(id),
            },
    {
        let mut i: usize = 0;
        while i < self.ids.len()
            invariant
                i <= self.ids@.len(),
                forall|j: int| 0 <= j < i ==> self.ids@[j] != id,
            decreases self.ids@.len() - i,
        {
            if self.ids[i] == id {
                return Some(i);
            }
            i = i + 1;
        }
        None
    }

    pub fn contains(&self, id: u32) -> (r: bool)
        requires
            self.wf(),
        ensures
            r == self@.has(id),
    {
        match self.position(id) {
            Some(_) => true,
            None => false,
        }
    }

    pub fn get(&self, id: u32) -> (r: Option<&T>)
        requires
            self.wf(),
        ensures
            match r {
                Some(t) => self@.has(id) && t@ == self@.at(id),
                None => !self@.has(id),
            },
    {
        match self.position(id) {
            Some(i) => {
                proof { self.lemma_view(); }
                Some(&self.entries[i])
            },
            None => None,
        }
    }

    pub fn get_mut(&mut self, id: u32) -> (r: Option<&mut T>)
        requires
            old(self).wf(),
        ensures
            final(self).wf(),
            match r {
                Some(t) => old(self)@.has(id) && t@ == old(self)@.at(id) && final(self)@ == old(
                    self,
                )@.set(id, final(t)@),
                None => !old(self)@.has(id) && final(self)@ == old(self)@,
            },
    {
        match self.position(id) {
            Some(i) => {
                proof { self.lemma_view(); }
                Some(&mut self.entries[i])
            },
            None => None,
        }
    }

    /// Add an entry under a new id.
    pub fn insert(&mut self, id: u32, entry: T)
        requires
            old(self).wf(),
            !old(self)@.has(id),
        ensures
            final(self).wf(),
            final(self)@ == old(self)@.add_last(id, entry@),
    {
        let ghost before = *self;
        proof {
            self.lemma_view();
        }
        self.ids.push(id);
        self.entries.push(entry);
        proof {
            assert forall|k: u32| self.ids@.contains(k) <==> (before.ids@.contains(k) || k == id) by {
                if before.ids@.contains(k) {
                    assert(self.ids@[before.ids@.index_of(k)] == k);
                }
                assert(self.ids@[before.ids@.len() as int] == id);
            }
            assert(self.wf());
            self.lemma_view();
            assert forall|k: u32| #[trigger] before@.has(k) implies self@.at(k) == before@.at(k) by {
                let i = before.ids@.index_of(k);
                assert(self.ids@[i] == k);
            }
            assert(self.ids@[before.ids@.len() as int] == id);
            assert(self@ =~= before@.add_last(id, entry@));
        }
    }

    /// Take an entry out.
    pub fn remove(&mut self, id: u32) -> (r: Option<T>)
        requires
            old(self).wf(),
        ensures
            final(self).wf(),
            final(self)@ == old(self)@.without(id),
            match r {
                Some(t) => old(self)@.has(id) && t@ == old(self)@.at(id),
                None => !old(self)@.has(id),
            },
    {
        match self.position(id) {
            Some(i) => {
                let ghost before = *self;
                proof {
                    self.lemma_view();
                    assert(before.ids@.index_of(id) == i);
                    law_without(before@, id);
                }
                self.ids.remove(i);
                let t = self.entries.remove(i);
                proof {
                    assert(self.ids@ =~= before@.without(id).order);
                    self.lemma_view();
                    assert forall|k: u32| #[trigger] self@.has(k) implies self@.at(k) == before@.at(k) by {
                        let j = self.ids@.index_of(k);
                        assert(self.ids@[j] == k);
                        if j < i {
                            assert(before.ids@[j] == k);
                        } else {
                            assert(before.ids@[j + 1] == k);
                        }
                    }
                    assert(self@ =~= before@.without(id));
                }
                Some(t)
            },
            None => None,
        }
    }

    /// How many entries there are.
    pub fn len(&self) -> (n: usize)
        requires
            self.wf(),
        ensures
            n == self@.count(),
    {
        self.ids.len()
    }

    /// The id at index `i` of the insertion order.
    pub fn id_at(&self, i: usize) -> (id: u32)
        requires
            self.wf(),
            i < self@.count(),
        ensures
            id == self@.order[i as int],
            self@.has(id),
    {
        proof {
            self.lemma_view();
        }
        self.ids[i]
    }

    /// The entry at index `i` of the insertion order.
    pub fn entry_at(&self, i: usize) -> (t: &T)
        requires
            self.wf(),
            i < self@.count(),
        ensures
            self@.has(self@.order[i as int]),
            t@ == self@.at(self@.order[i as int]),
    {
        proof {
            self.lemma_view();
        }
        &self.entries[i]
    }

    /// A well-formed registry has a well-formed view.
    pub proof fn law_view_wf(&self)
        requires
            self.wf(),
        ensures
            self@.wf(),
    {
        self.lemma_view();
    }

    /// All ids, in insertion order.
    pub fn ids(&self) -> (r: Vec<u32>)
        requires
            self.wf(),
        ensures
            r@ == self@.order,
    {
        let mut r: Vec<u32> = Vec::new();
        let mut i: usize = 0;
        while i < self.ids.len()
            invariant
                i <= self.ids@.len(),
                r@ == self.ids@.take(i as int),
            decreases self.ids@.len() - i,
        {
            r.push(self.ids[i]);
            assert(self.ids@.take(i + 1) =~= self.ids@.take(i as int).push(self.ids@[i as int]));
            i = i + 1;
        }
        assert(self.ids@.take(self.ids@.len() as int) =~= self.ids@);
        r
    }
}

} // verus!
