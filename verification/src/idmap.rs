use vstd::prelude::*;

verus! {

/// Finite map from numeric item ids to entities, backed by a vector of
/// entries kept in insertion order. The abstract value (the view) is a
/// `Map<u32, _>`; the entry order is still observable through
/// [`IdMap::entry_seq`], which the persistence layer uses to write entries
/// deterministically.
#[derive(Debug, PartialEq, Eq)]
pub struct IdMap<V: View> {
    entries: Vec<(u32, V)>,
}

/// The map described by a sequence of key-value pairs; later entries win.
pub open spec fn map_of<T>(s: Seq<(u32, T)>) -> Map<u32, T>
    decreases s.len(),
{
    if s.len() == 0 {
        Map::empty()
    } else {
        map_of(s.drop_last()).insert(s.last().0, s.last().1)
    }
}

pub open spec fn keys_of<T>(s: Seq<(u32, T)>) -> Seq<u32> {
    s.map_values(|e: (u32, T)| e.0)
}

/// No key occurs twice in the entry sequence.
pub open spec fn entries_unique<T>(s: Seq<(u32, T)>) -> bool {
    forall|i: int, j: int| 0 <= i < j < s.len() ==> s[i].0 != s[j].0
}

proof fn lemma_map_of_dom<T>(s: Seq<(u32, T)>, k: u32)
    ensures
        map_of(s).dom().contains(k) <==> exists|i: int| 0 <= i < s.len() && s[i].0 == k,
    decreases s.len(),
{
    if s.len() > 0 {
        lemma_map_of_dom(s.drop_last(), k);
        if s.last().0 == k {
            assert(s[s.len() - 1].0 == k);
        } else if map_of(s).dom().contains(k) {
            let i = choose|i: int| 0 <= i < s.drop_last().len() && s.drop_last()[i].0 == k;
            assert(s[i].0 == k);
        } else if exists|i: int| 0 <= i < s.len() && s[i].0 == k {
            let i = choose|i: int| 0 <= i < s.len() && s[i].0 == k;
            assert(s.drop_last()[i].0 == k);
        }
    }
}

proof fn lemma_map_of_index<T>(s: Seq<(u32, T)>, i: int)
    requires
        entries_unique(s),
        0 <= i < s.len(),
    ensures
        map_of(s).dom().contains(s[i].0),
        map_of(s)[s[i].0] == s[i].1,
    decreases s.len(),
{
    if i == s.len() - 1 {
    } else {
        lemma_map_of_index(s.drop_last(), i);
        assert(s.drop_last()[i] == s[i]);
        assert(s.last().0 != s[i].0);
    }
}

impl<V: View> IdMap<V> {
    /// The entries as a sequence of (id, model) pairs, in insertion order.
    pub closed spec fn entry_seq(&self) -> Seq<(u32, V::V)> {
        self.entries@.map_values(|e: (u32, V)| (e.0, e.1@))
    }

    #[verifier::type_invariant]
    spec fn inv(&self) -> bool {
        entries_unique(self.entry_seq())
    }

    pub fn new() -> (r: Self)
        ensures
            r@ == Map::<u32, V::V>::empty(),
            r.entry_seq() == Seq::<(u32, V::V)>::empty(),
    {
        let r = IdMap { entries: Vec::new() };
        proof {
            assert(r.entry_seq() =~= Seq::<(u32, V::V)>::empty());
            assert(r@ =~= Map::<u32, V::V>::empty());
        }
        r
    }

    /// The number of entries, which equals the size of the map's domain.
    pub fn len(&self) -> (r: usize)
        ensures
            r == self.entry_seq().len(),
            r == self@.dom().len(),
    {
        proof {
            use_type_invariant(self);
            lemma_unique_dom_len(self.entry_seq());
        }
        self.entries.len()
    }

    pub fn is_empty(&self) -> (r: bool)
        ensures
            r <==> self@ == Map::<u32, V::V>::empty(),
    {
        proof {
            use_type_invariant(self);
            lemma_unique_dom_len(self.entry_seq());
            if self.entry_seq().len() == 0 {
                assert(self@ =~= Map::<u32, V::V>::empty());
            } else {
                assert(self@.dom().len() != 0);
                assert(Map::<u32, V::V>::empty().dom().len() == 0);
            }
        }
        self.entries.len() == 0
    }

    fn find(&self, id: u32) -> (r: Option<usize>)
        ensures
            match r {
                Some(i) => i < self.entry_seq().len() && self.entry_seq()[i as int].0 == id,
                None => forall|i: int|
                    0 <= i < self.entry_seq().len() ==> self.entry_seq()[i].0 != id,
            },
    {
        let mut i: usize = 0;
        while i < self.entries.len()
            invariant
                i <= self.entries.len(),
                forall|j: int| 0 <= j < i ==> self.entry_seq()[j].0 != id,
            decreases self.entries.len() - i,
        {
            if self.entries[i].0 == id {
                return Some(i);
            }
            i = i + 1;
        }
        None
    }

    pub fn contains_key(&self, id: u32) -> (r: bool)
        ensures
            r == self@.dom().contains(id),
    {
        proof {
            use_type_invariant(self);
            lemma_map_of_dom(self.entry_seq(), id);
        }
        match self.find(id) {
            Some(_) => true,
            None => false,
        }
    }

    pub fn get(&self, id: u32) -> (r: Option<&V>)
        ensures
            match r {
                Some(v) => self@.dom().contains(id) && v@ == self@[id],
                None => !self@.dom().contains(id),
            },
    {
        proof {
            use_type_invariant(self);
            lemma_map_of_dom(self.entry_seq(), id);
        }
        match self.find(id) {
            Some(i) => {
                proof {
                    lemma_map_of_index(self.entry_seq(), i as int);
                }
                Some(&self.entries[i].1)
            },
            None => None,
        }
    }

    /// Inserts or replaces the entry for `id`. A fresh id is appended at the
    /// end of the entry sequence; an existing id keeps its position.
    pub fn insert(&mut self, id: u32, v: V)
        ensures
            final(self)@ == old(self)@.insert(id, v@),
            !old(self)@.dom().contains(id) ==> final(self).entry_seq() == old(
                self,
            ).entry_seq().push((id, v@)),
            old(self)@.dom().contains(id) ==> {
                &&& final(self).entry_seq().len() == old(self).entry_seq().len()
                &&& forall|j: int|
                    0 <= j < old(self).entry_seq().len() ==> final(self).entry_seq()[j] == (
                    if old(self).entry_seq()[j].0 == id {
                        (id, v@)
                    } else {
                        old(self).entry_seq()[j]
                    })
            },
    {
        proof {
            use_type_invariant(&*self);
            lemma_map_of_dom(self.entry_seq(), id);
        }
        let found = self.find(id);
        let ghost old_seq = self.entry_seq();
        let mut entries: Vec<(u32, V)> = Vec::new();
        core::mem::swap(&mut entries, &mut self.entries);
        match found {
            Some(i) => {
                vstd::pervasive::VecAdditionalExecFns::set(&mut entries, i, (id, v));
                proof {
                    let new_seq = entries@.map_values(|e: (u32, V)| (e.0, e.1@));
                    assert(new_seq =~= old_seq.update(i as int, (id, v@)));
                    lemma_map_of_update(old_seq, i as int, v@);
                }
                self.entries = entries;
                proof {
                    assert(self.entry_seq() =~= old_seq.update(i as int, (id, v@)));
                    assert(final(self)@ =~= old(self)@.insert(id, v@));
                }
            },
            None => {
                entries.push((id, v));
                proof {
                    let new_seq = entries@.map_values(|e: (u32, V)| (e.0, e.1@));
                    assert(new_seq =~= old_seq.push((id, v@)));
                }
                self.entries = entries;
                proof {
                    assert(self.entry_seq() =~= old_seq.push((id, v@)));
                    assert(self.entry_seq().drop_last() =~= old_seq);
                    assert(final(self)@ =~= old(self)@.insert(id, v@));
                }
            },
        }
    }

    /// Removes the entry for `id`, if any; the other entries keep their order.
    pub fn remove(&mut self, id: u32)
        ensures
            final(self)@ == old(self)@.remove(id),
            final(self).entry_seq() == old(self).entry_seq().filter(
                |e: (u32, V::V)| e.0 != id,
            ),
    {
        proof {
            use_type_invariant(&*self);
            lemma_map_of_dom(self.entry_seq(), id);
        }
        let found = self.find(id);
        let ghost old_seq = self.entry_seq();
        match found {
            Some(i) => {
                let mut entries: Vec<(u32, V)> = Vec::new();
                core::mem::swap(&mut entries, &mut self.entries);
                entries.remove(i);
                proof {
                    let new_seq = entries@.map_values(|e: (u32, V)| (e.0, e.1@));
                    assert(new_seq =~= old_seq.remove(i as int));
                    assert forall|a: int, b: int| 0 <= a < b < new_seq.len() implies new_seq[a].0
                        != new_seq[b].0 by {
                        if b < i {
                        } else if a < i {
                            assert(new_seq[b] == old_seq[b + 1]);
                        } else {
                            assert(new_seq[a] == old_seq[a + 1]);
                            assert(new_seq[b] == old_seq[b + 1]);
                        }
                    }
                }
                self.entries = entries;
                proof {
                    assert(self.entry_seq() =~= old_seq.remove(i as int));
                    lemma_remove_unique_is_filter(old_seq, i as int, id);
                    lemma_map_of_remove(old_seq, i as int);
                    assert(final(self)@ =~= old(self)@.remove(id));
                }
            },
            None => {
                proof {
                    lemma_filter_no_match(old_seq, id);
                    assert(!old(self)@.dom().contains(id));
                    assert(final(self)@ =~= old(self)@.remove(id));
                }
            },
        }
    }

    /// The entry at a position of the entry sequence.
    pub fn entry_at(&self, i: usize) -> (r: (u32, &V))
        requires
            i < self.entry_seq().len(),
        ensures
            (r.0, r.1@) == self.entry_seq()[i as int],
    {
        (self.entries[i].0, &self.entries[i].1)
    }

    /// All ids, in entry order.
    pub fn keys(&self) -> (r: Vec<u32>)
        ensures
            r@ == keys_of(self.entry_seq()),
    {
        let mut r: Vec<u32> = Vec::new();
        let mut i: usize = 0;
        while i < self.entries.len()
            invariant
                i <= self.entries.len(),
                r@ == keys_of(self.entry_seq()).take(i as int),
            decreases self.entries.len() - i,
        {
            r.push(self.entries[i].0);
            proof {
                assert(r@ =~= keys_of(self.entry_seq()).take(i + 1));
            }
            i = i + 1;
        }
        proof {
            assert(r@ =~= keys_of(self.entry_seq()));
        }
        r
    }
}

/// A clone that provably preserves the abstract value.
pub trait ViewDup: View + Sized {
    fn dup(&self) -> (r: Self)
        ensures
            r@ == self@,
    ;
}

impl<V: View + ViewDup> Clone for IdMap<V> {
    fn clone(&self) -> (r: Self)
        ensures
            r.entry_seq() == self.entry_seq(),
            r@ == self@,
    {
        proof {
            use_type_invariant(self);
        }
        let mut entries: Vec<(u32, V)> = Vec::new();
        let mut i: usize = 0;
        while i < self.entries.len()
            invariant
                i <= self.entries.len(),
                entries@.len() == i as int,
                forall|j: int|
                    0 <= j < i ==> #[trigger] entries@[j].0 == self.entries@[j].0 && entries@[j].1@
                        == self.entries@[j].1@,
            decreases self.entries.len() - i,
        {
            let key = self.entries[i].0;
            let val = self.entries[i].1.dup();
            entries.push((key, val));
            i = i + 1;
        }
        proof {
            let f = |e: (u32, V)| (e.0, e.1@);
            assert forall|j: int| 0 <= j < entries@.len() implies #[trigger] entries@.map_values(
                f,
            )[j] == self.entry_seq()[j] by {
                assert(entries@[j].0 == self.entries@[j].0);
                assert(entries@[j].1@ == self.entries@[j].1@);
            }
            assert(entries@.map_values(f) =~= self.entry_seq());
        }
        let r = IdMap { entries };
        proof {
            assert(r.entry_seq() =~= self.entry_seq());
        }
        r
    }
}

impl<V: View> View for IdMap<V> {
    type V = Map<u32, V::V>;

    closed spec fn view(&self) -> Map<u32, V::V> {
        map_of(self.entry_seq())
    }
}

/// The abstract map is exactly the map described by the entry sequence.
pub proof fn lemma_view_is_map_of<V: View>(m: &IdMap<V>)
    ensures
        m@ == map_of(m.entry_seq()),
{
}

/// With unique keys, the number of entries equals the size of the domain.
proof fn lemma_unique_dom_len<T>(s: Seq<(u32, T)>)
    requires
        entries_unique(s),
    ensures
        map_of(s).dom().finite(),
        map_of(s).dom().len() == s.len(),
    decreases s.len(),
{
    if s.len() > 0 {
        lemma_unique_dom_len(s.drop_last());
        lemma_map_of_dom(s.drop_last(), s.last().0);
        assert(forall|i: int|
            0 <= i < s.drop_last().len() ==> s.drop_last()[i].0 != s.last().0);
        assert(!map_of(s.drop_last()).dom().contains(s.last().0));
        assert(map_of(s).dom() =~= map_of(s.drop_last()).dom().insert(s.last().0));
    } else {
        assert(map_of(s).dom() =~= Set::<u32>::empty());
    }
}

proof fn lemma_map_of_update<T>(s: Seq<(u32, T)>, i: int, v: T)
    requires
        entries_unique(s),
        0 <= i < s.len(),
    ensures
        map_of(s.update(i, (s[i].0, v))) =~= map_of(s).insert(s[i].0, v),
    decreases s.len(),
{
    let t = s.update(i, (s[i].0, v));
    if i == s.len() - 1 {
        assert(t.drop_last() =~= s.drop_last());
    } else {
        lemma_map_of_update(s.drop_last(), i, v);
        assert(t.drop_last() =~= s.drop_last().update(i, (s[i].0, v)));
        assert(s.last().0 != s[i].0);
    }
}

proof fn lemma_map_of_remove<T>(s: Seq<(u32, T)>, i: int)
    requires
        entries_unique(s),
        0 <= i < s.len(),
    ensures
        map_of(s.remove(i)) =~= map_of(s).remove(s[i].0),
    decreases s.len(),
{
    if i == s.len() - 1 {
        lemma_map_of_dom(s.drop_last(), s[i].0);
        assert(s.remove(i) =~= s.drop_last());
        assert(!map_of(s.drop_last()).dom().contains(s[i].0));
        assert(map_of(s.drop_last()).remove(s[i].0) =~= map_of(s.drop_last()));
    } else {
        lemma_map_of_remove(s.drop_last(), i);
        assert(s.remove(i).drop_last() =~= s.drop_last().remove(i));
        assert(s.remove(i).last() == s.last());
        assert(s.last().0 != s[i].0);
    }
}

proof fn lemma_remove_unique_is_filter<T>(s: Seq<(u32, T)>, i: int, id: u32)
    requires
        entries_unique(s),
        0 <= i < s.len(),
        s[i].0 == id,
    ensures
        s.remove(i) =~= s.filter(|e: (u32, T)| e.0 != id),
    decreases s.len(),
{
    reveal(Seq::filter);
    if i == s.len() - 1 {
        lemma_filter_no_match(s.drop_last(), id);
        assert(s.remove(i) =~= s.drop_last());
    } else {
        lemma_remove_unique_is_filter(s.drop_last(), i, id);
        assert(s.remove(i).drop_last() =~= s.drop_last().remove(i));
        assert(s.remove(i).last() == s.last());
        assert(s.last().0 != id);
        assert(s.filter(|e: (u32, T)| e.0 != id) =~= s.drop_last().filter(
            |e: (u32, T)| e.0 != id,
        ).push(s.last()));
    }
}

proof fn lemma_filter_no_match<T>(s: Seq<(u32, T)>, id: u32)
    requires
        forall|i: int| 0 <= i < s.len() ==> s[i].0 != id,
    ensures
        s.filter(|e: (u32, T)| e.0 != id) =~= s,
    decreases s.len(),
{
    reveal(Seq::filter);
    if s.len() > 0 {
        lemma_filter_no_match(s.drop_last(), id);
        assert(s[s.len() - 1].0 != id);
    }
}

} // verus!
