//! A set of names and a map keyed by names, both small enough to be searched
//! from front to back.

use vstd::prelude::*;
use crate::text;

verus! {

/// A set of names.
pub struct NameSet {
    names: Vec<String>,
}

impl View for NameSet {
    type V = Set<Seq<char>>;

    closed spec fn view(&self) -> Set<Seq<char>> {
        text::texts(self.names@).to_set()
    }
}

impl NameSet {
    /// No name is held twice.
    #[verifier::type_invariant]
    closed spec fn distinct(self) -> bool {
        text::texts(self.names@).no_duplicates()
    }

    /// The empty set.
    pub fn new() -> (r: Self)
        ensures
            r@ == Set::<Seq<char>>::empty(),
    {
        let r = NameSet { names: Vec::new() };
        assert(text::texts(r.names@) =~= Seq::<Seq<char>>::empty());
        assert(r@ =~= Set::<Seq<char>>::empty());
        r
    }

    /// The position of a name.
    fn position(&self, name: &str) -> (r: Option<usize>)
        ensures
            match r {
                Some(i) => i < self.names@.len() && self.names@[i as int]@ == name@,
                None => !self@.contains(name@),
            },
    {
        let mut i: usize = 0;
        while i < self.names.len()
            invariant
                i <= self.names@.len(),
                forall|j: int| 0 <= j < i ==> (#[trigger] self.names@[j])@ != name@,
            decreases self.names@.len() - i,
        {
            if text::same_text(self.names[i].as_str(), name) {
                return Some(i);
            }
            i += 1;
        }
        assert forall|j: int| 0 <= j < text::texts(self.names@).len() implies text::texts(self.names@)[j] != name@ by {
            assert(text::texts(self.names@)[j] == self.names@[j]@);
        }
        None
    }

    /// Whether a name is in the set.
    pub fn contains(&self, name: &str) -> (r: bool)
        ensures
            r == self@.contains(name@),
    {
        match self.position(name) {
            Some(i) => {
                assert(text::texts(self.names@)[i as int] == name@);
                true
            },
            None => false,
        }
    }

    /// The number of names.
    pub fn len(&self) -> (r: usize)
        ensures
            self@.finite(),
            r == self@.len(),
    {
        proof {
            use_type_invariant(self);
            text::texts(self.names@).unique_seq_to_set();
            vstd::seq_lib::seq_to_set_is_finite(text::texts(self.names@));
        }
        self.names.len()
    }

    /// Adds a name; `true` when it was not there before.
    pub fn insert(&mut self, name: String) -> (fresh: bool)
        ensures
            fresh == !old(self)@.contains(name@),
            final(self)@ == old(self)@.insert(name@),
    {
        proof {
            use_type_invariant(&*self);
        }
        if self.contains(name.as_str()) {
            assert(self@ =~= old(self)@.insert(name@));
            return false;
        }
        let ghost before = self.names@;
        let mut names: Vec<String> = Vec::new();
        assert(text::texts(names@) =~= Seq::<Seq<char>>::empty());
        std::mem::swap(&mut names, &mut self.names);
        names.push(name);
        proof {
            let old_texts = text::texts(before);
            let new_texts = text::texts(names@);
            assert(new_texts =~= old_texts.push(name@));
            assert forall|i: int, j: int|
                0 <= i < new_texts.len() && 0 <= j < new_texts.len() && i
                    != j implies new_texts[i] != new_texts[j] by {
                if i < old_texts.len() {
                    assert(old_texts.to_set().contains(old_texts[i]));
                }
                if j < old_texts.len() {
                    assert(old_texts.to_set().contains(old_texts[j]));
                }
            }
            assert(new_texts.to_set() =~= old_texts.to_set().insert(name@)) by {
                assert forall|n: Seq<char>|
                    old_texts.to_set().insert(name@).contains(n) implies new_texts.to_set().contains(
                    n,
                ) by {
                    if n == name@ {
                        assert(new_texts[old_texts.len() as int] == n);
                    } else {
                        let i = choose|i: int| 0 <= i < old_texts.len() && old_texts[i] == n;
                        assert(new_texts[i] == n);
                    }
                }
            }
        }
        self.names = names;
        true
    }

    /// Keeps only the names that `keep` holds.
    pub fn retain(&mut self, keep: &NameSet)
        ensures
            final(self)@ == old(self)@.intersect(keep@),
    {
        let mut kept = NameSet::new();
        let mut i: usize = 0;
        let ghost all = text::texts(self.names@);
        while i < self.names.len()
            invariant
                i <= self.names@.len(),
                all == text::texts(self.names@),
                kept@ == all.take(i as int).to_set().intersect(keep@),
            decreases self.names@.len() - i,
        {
            assert(all[i as int] == self.names@[i as int]@);
            assert(all.take(i + 1) =~= all.take(i as int).push(all[i as int]));
            proof {
                lemma_push_to_set(all.take(i as int), all[i as int]);
            }
            if keep.contains(self.names[i].as_str()) {
                kept.insert(self.names[i].clone());
            }
            assert(kept@ =~= all.take(i + 1).to_set().intersect(keep@));
            i += 1;
        }
        assert(all.take(all.len() as int) =~= all);
        *self = kept;
    }

    /// Takes a name out.
    pub fn remove(&mut self, name: &str)
        ensures
            final(self)@ == old(self)@.remove(name@),
    {
        let mut kept = NameSet::new();
        let mut i: usize = 0;
        let ghost all = text::texts(self.names@);
        while i < self.names.len()
            invariant
                i <= self.names@.len(),
                all == text::texts(self.names@),
                kept@ == all.take(i as int).to_set().remove(name@),
            decreases self.names@.len() - i,
        {
            assert(all[i as int] == self.names@[i as int]@);
            assert(all.take(i + 1) =~= all.take(i as int).push(all[i as int]));
            proof {
                lemma_push_to_set(all.take(i as int), all[i as int]);
            }
            if !text::same_text(self.names[i].as_str(), name) {
                kept.insert(self.names[i].clone());
            }
            assert(kept@ =~= all.take(i + 1).to_set().remove(name@));
            i += 1;
        }
        assert(all.take(all.len() as int) =~= all);
        *self = kept;
    }
}

impl Default for NameSet {
    fn default() -> (r: Self)
        ensures
            r@ == Set::<Seq<char>>::empty(),
    {
        NameSet::new()
    }
}

/// The set of a sequence grows by the item that is pushed.
proof fn lemma_push_to_set(s: Seq<Seq<char>>, x: Seq<char>)
    ensures
        s.push(x).to_set() == s.to_set().insert(x),
{
    assert forall|y: Seq<char>| s.to_set().insert(x).contains(y) implies s.push(
        x,
    ).to_set().contains(y) by {
        if y == x {
            assert(s.push(x)[s.len() as int] == x);
        } else {
            let i = choose|i: int| 0 <= i < s.len() && s[i] == y;
            assert(s.push(x)[i] == y);
        }
    }
    assert(s.push(x).to_set() =~= s.to_set().insert(x));
}

/// A map from names to values.
pub struct NameMap<V> {
    entries: Vec<(String, V)>,
}

/// The names of a list of entries.
pub closed spec fn keys<V>(entries: Seq<(String, V)>) -> Seq<Seq<char>> {
    entries.map_values(|e: (String, V)| e.0@)
}

impl<V> View for NameMap<V> {
    type V = Map<Seq<char>, V>;

    closed spec fn view(&self) -> Map<Seq<char>, V> {
        Map::new(
            |k: Seq<char>| keys(self.entries@).contains(k),
            |k: Seq<char>| self.entries@[keys(self.entries@).index_of(k)].1,
        )
    }
}

impl<V> NameMap<V> {
    /// No name has two entries.
    #[verifier::type_invariant]
    closed spec fn distinct(self) -> bool {
        keys(self.entries@).no_duplicates()
    }

    /// The empty map.
    pub fn new() -> (r: Self)
        ensures
            r@ == Map::<Seq<char>, V>::empty(),
    {
        let r = NameMap { entries: Vec::new() };
        assert(keys(r.entries@) =~= Seq::<Seq<char>>::empty());
        assert(r@ =~= Map::<Seq<char>, V>::empty());
        r
    }

    /// The position of the entry of a name.
    fn position(&self, name: &str) -> (r: Option<usize>)
        ensures
            match r {
                Some(i) => {
                    &&& i < self.entries@.len()
                    &&& self.entries@[i as int].0@ == name@
                    &&& self@.contains_key(name@)
                    &&& self@[name@] == self.entries@[i as int].1
                },
                None => !self@.contains_key(name@),
            },
    {
        proof {
            use_type_invariant(self);
        }
        let ghost names = keys(self.entries@);
        let mut i: usize = 0;
        while i < self.entries.len()
            invariant
                i <= self.entries@.len(),
                names == keys(self.entries@),
                names.no_duplicates(),
                forall|j: int| 0 <= j < i ==> #[trigger] names[j] != name@,
            decreases self.entries@.len() - i,
        {
            assert(names[i as int] == self.entries@[i as int].0@);
            if text::same_text(self.entries[i].0.as_str(), name) {
                assert(names.index_of(name@) == i);
                return Some(i);
            }
            i += 1;
        }
        None
    }

    /// The value of a name.
    pub fn get(&self, name: &str) -> (r: Option<&V>)
        ensures
            match r {
                Some(v) => self@.contains_key(name@) && *v == self@[name@],
                None => !self@.contains_key(name@),
            },
    {
        match self.position(name) {
            Some(i) => Some(&self.entries[i].1),
            None => None,
        }
    }

    /// The names that have a value, each once.
    pub closed spec fn names(&self) -> Seq<Seq<char>> {
        keys(self.entries@)
    }

    /// The number of names that have a value.
    pub fn len(&self) -> (r: usize)
        ensures
            r == self.names().len(),
            self.names().no_duplicates(),
            self.names().to_set() == self@.dom(),
    {
        proof {
            use_type_invariant(self);
            assert(self.names().to_set() =~= self@.dom());
        }
        self.entries.len()
    }

    /// The name at position `i`.
    pub fn name_at(&self, i: usize) -> (r: &str)
        requires
            i < self.names().len(),
        ensures
            r@ == self.names()[i as int],
    {
        self.entries[i].0.as_str()
    }

    /// Whether a name has a value.
    pub fn contains_key(&self, name: &str) -> (r: bool)
        ensures
            r == self@.contains_key(name@),
    {
        match self.position(name) {
            Some(_i) => true,
            None => false,
        }
    }

    /// Gives a name a value, in place of the one it had.
    pub fn insert(&mut self, name: String, v: V)
        ensures
            final(self)@ == old(self)@.insert(name@, v),
    {
        proof {
            use_type_invariant(&*self);
        }
        let at = self.position(name.as_str());
        let ghost before = self.entries@;
        let ghost old_keys = keys(before);
        let mut entries: Vec<(String, V)> = Vec::new();
        assert(keys(entries@) =~= Seq::<Seq<char>>::empty());
        std::mem::swap(&mut entries, &mut self.entries);
        match at {
            Some(i) => {
                entries.set(i, (name, v));
                assert(keys(entries@) =~= old_keys);
                assert(old_keys[i as int] == name@);
            },
            None => {
                entries.push((name, v));
                assert(keys(entries@) =~= old_keys.push(name@));
                assert(keys(entries@).no_duplicates()) by {
                    assert forall|j: int| 0 <= j < old_keys.len() implies old_keys[j] != name@ by {
                        if old_keys[j] == name@ {
                            assert(old_keys.contains(name@));
                        }
                    }
                }
            },
        }
        let ghost new_keys = keys(entries@);
        self.entries = entries;
        proof {
            assert forall|k: Seq<char>|
                #![trigger self@.contains_key(k)]
                self@.contains_key(k) == old(self)@.insert(name@, v).contains_key(k) by {
                if k == name@ {
                    let p = if at is Some { at->0 as int } else { old_keys.len() as int };
                    assert(new_keys[p] == k);
                    assert(new_keys.contains(k));
                } else if old_keys.contains(k) {
                    let p = old_keys.index_of(k);
                    assert(new_keys[p] == k);
                    assert(new_keys.contains(k));
                } else if new_keys.contains(k) {
                    let p = new_keys.index_of(k);
                    if p < old_keys.len() {
                        assert(old_keys[p] == k);
                    }
                }
            }
            assert forall|k: Seq<char>| #[trigger] self@.contains_key(k) implies self@[k]
                == old(self)@.insert(name@, v)[k] by {
                let p = new_keys.index_of(k);
                assert(new_keys[p] == k);
                if k == name@ {
                    let q = if at is Some { at->0 as int } else { old_keys.len() as int };
                    assert(new_keys[q] == k);
                } else {
                    assert(old_keys.contains(k));
                    let q = old_keys.index_of(k);
                    assert(new_keys[q] == k);
                }
            }
            assert(self@ =~= old(self)@.insert(name@, v));
        }
    }
}

} // verus!
