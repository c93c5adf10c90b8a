//! A map from names to values that remembers the order of insertion.
use vstd::prelude::*;

verus! {

/// Whether two texts hold the same characters.
pub fn same_text(a: &str, b: &str) -> (r: bool)
    ensures
        r == (a@ == b@),
{
    let n = a.unicode_len();
    let m = b.unicode_len();
    if n != m {
        return false;
    }
    let mut i: usize = 0;
    while i < n
        invariant
            n == a@.len(),
            m == b@.len(),
            n == m,
            i <= n,
            forall|j: int| 0 <= j < i ==> a@[j] == b@[j],
        decreases n - i,
    {
        if a.get_char(i) != b.get_char(i) {
            return false;
        }
        i += 1;
    }
    assert(a@ =~= b@);
    true
}

/// The map that a sequence of named entries describes, later entries winning.
pub open spec fn entries_map<V>(s: Seq<(String, V)>) -> Map<Seq<char>, V>
    decreases s.len(),
{
    if s.len() == 0 {
        Map::empty()
    } else {
        entries_map(s.drop_last()).insert(s.last().0@, s.last().1)
    }
}

/// The names of a sequence of entries, in order.
pub open spec fn entry_names<V>(s: Seq<(String, V)>) -> Seq<Seq<char>> {
    s.map_values(|e: (String, V)| e.0@)
}

pub proof fn lemma_entries_map_index<V>(s: Seq<(String, V)>, i: int)
    requires
        entry_names(s).no_duplicates(),
        0 <= i < s.len(),
    ensures
        entries_map(s).contains_key(s[i].0@),
        entries_map(s)[s[i].0@] == s[i].1,
    decreases s.len(),
{
    if i < s.len() - 1 {
        let t = s.drop_last();
        assert(entry_names(t) =~= entry_names(s).drop_last());
        assert(entry_names(s)[i] == s[i].0@);
        assert(entry_names(s)[s.len() - 1] == s.last().0@);
        lemma_entries_map_index(t, i);
        assert(t[i] == s[i]);
    }
}

pub proof fn lemma_entries_map_dom<V>(s: Seq<(String, V)>, k: Seq<char>)
    ensures
        entries_map(s).contains_key(k) <==> entry_names(s).contains(k),
    decreases s.len(),
{
    if s.len() > 0 {
        let t = s.drop_last();
        lemma_entries_map_dom(t, k);
        assert(entry_names(t) =~= entry_names(s).drop_last());
        if entry_names(s).contains(k) {
            let j = choose|j: int| 0 <= j < s.len() && entry_names(s)[j] == k;
            if j < s.len() - 1 {
                assert(entry_names(t)[j] == k);
            }
        }
        if entry_names(t).contains(k) {
            let j = choose|j: int| 0 <= j < t.len() && entry_names(t)[j] == k;
            assert(entry_names(s)[j] == k);
        }
        if k == s.last().0@ {
            assert(entry_names(s)[s.len() - 1] == k);
        }
    }
}

pub proof fn lemma_entries_map_update<V>(s: Seq<(String, V)>, i: int, e: (String, V))
    requires
        entry_names(s).no_duplicates(),
        0 <= i < s.len(),
        e.0@ == s[i].0@,
    ensures
        entries_map(s.update(i, e)) == entries_map(s).insert(e.0@, e.1),
    decreases s.len(),
{
    let u = s.update(i, e);
    if i == s.len() - 1 {
        assert(u.drop_last() =~= s.drop_last());
        let t = s.drop_last();
        assert(entry_names(t) =~= entry_names(s).drop_last());
        assert(entries_map(u) =~= entries_map(s).insert(e.0@, e.1));
    } else {
        let t = s.drop_last();
        assert(entry_names(t) =~= entry_names(s).drop_last());
        assert(u.drop_last() =~= t.update(i, e));
        lemma_entries_map_update(t, i, e);
        assert(entry_names(s)[i] == s[i].0@);
        assert(entry_names(s)[s.len() - 1] == s.last().0@);
        assert(s.last().0@ != e.0@);
        assert(entries_map(u) =~= entries_map(s).insert(e.0@, e.1));
    }
}

/// Values under distinct names, kept in the order in which their names were
/// first inserted.
pub struct NamedMap<V> {
    entries: Vec<(String, V)>,
}

impl<V> NamedMap<V> {
    /// Well-formed: no name occurs twice.
    pub closed spec fn wf(&self) -> bool {
        entry_names(self.entries@).no_duplicates()
    }

    /// The contents as a map from names to values.
    pub closed spec fn view(&self) -> Map<Seq<char>, V> {
        entries_map(self.entries@)
    }

    /// The names, in the order in which they were first inserted.
    pub closed spec fn names(&self) -> Seq<Seq<char>> {
        entry_names(self.entries@)
    }

    /// Every name occurs once, and the names are exactly the keys of the map.
    pub proof fn lemma_names(&self)
        requires
            self.wf(),
        ensures
            self.names().no_duplicates(),
            forall|k: Seq<char>| #[trigger] self@.contains_key(k) <==> self.names().contains(k),
            self@.dom().finite(),
            self@.dom().len() == self.names().len(),
    {
        assert forall|k: Seq<char>| #[trigger] self@.contains_key(k) <==> self.names().contains(k) by {
            lemma_entries_map_dom(self.entries@, k);
        }
        assert(self@.dom() =~= self.names().to_set());
        self.names().unique_seq_to_set();
    }

    pub fn new() -> (r: Self)
        ensures
            r.wf(),
            r@ == Map::<Seq<char>, V>::empty(),
            r.names() == Seq::<Seq<char>>::empty(),
    {
        let r = NamedMap { entries: Vec::new() };
        assert(entry_names(r.entries@) =~= Seq::<Seq<char>>::empty());
        r
    }

    pub fn len(&self) -> (r: usize)
        ensures
            r == self.names().len(),
    {
        self.entries.len()
    }

    /// The position of `name` among the names, if it is there.
    pub fn position(&self, name: &str) -> (r: Option<usize>)
        ensures
            r matches Some(i) ==> i < self.names().len() && self.names()[i as int] == name@,
            r is None <==> !self@.contains_key(name@),
    {
        proof {
            lemma_entries_map_dom(self.entries@, name@);
        }
        let mut i: usize = 0;
        while i < self.entries.len()
            invariant
                i <= self.entries@.len(),
                forall|j: int| 0 <= j < i ==> self.entries@[j].0@ != name@,
            decreases self.entries@.len() - i,
        {
            if same_text(self.entries[i].0.as_str(), name) {
                assert(entry_names(self.entries@)[i as int] == name@);
                proof {
                    lemma_entries_map_dom(self.entries@, name@);
                }
                return Some(i);
            }
            i += 1;
        }
        assert(!entry_names(self.entries@).contains(name@));
        None
    }

    pub fn contains_key(&self, name: &str) -> (r: bool)
        ensures
            r == self@.contains_key(name@),
    {
        self.position(name).is_some()
    }

    /// The name at position `i`.
    pub fn name_at(&self, i: usize) -> (r: &String)
        requires
            i < self.names().len(),
        ensures
            r@ == self.names()[i as int],
    {
        &self.entries[i].0
    }

    /// The value at position `i`: the one stored under the name at `i`.
    pub fn value_at(&self, i: usize) -> (r: &V)
        requires
            self.wf(),
            i < self.names().len(),
        ensures
            self@.contains_key(self.names()[i as int]),
            *r == self@[self.names()[i as int]],
    {
        proof {
            lemma_entries_map_index(self.entries@, i as int);
        }
        &self.entries[i].1
    }

    pub fn get(&self, name: &str) -> (r: Option<&V>)
        requires
            self.wf(),
        ensures
            r matches Some(v) ==> self@.contains_key(name@) && *v == self@[name@],
            r is None <==> !self@.contains_key(name@),
    {
        match self.position(name) {
            Some(i) => Some(self.value_at(i)),
            None => None,
        }
    }

    /// Stores `value` under `name`, replacing what was stored there; a new name
    /// goes after the others.
    pub fn insert(&mut self, name: String, value: V)
        requires
            old(self).wf(),
        ensures
            final(self).wf(),
            final(self)@ == old(self)@.insert(name@, value),
            old(self)@.contains_key(name@) ==> final(self).names() == old(self).names(),
            !old(self)@.contains_key(name@) ==> final(self).names() == old(self).names().push(name@),
    {
        match self.position(name.as_str()) {
            Some(i) => {
                let ghost s = self.entries@;
                proof {
                    lemma_entries_map_update(s, i as int, (name, value));
                }
                self.entries.set(i, (name, value));
                assert(entry_names(self.entries@) =~= entry_names(s));
            },
            None => {
                let ghost s = self.entries@;
                proof {
                    lemma_entries_map_dom(s, name@);
                }
                self.entries.push((name, value));
                assert(self.entries@.drop_last() =~= s);
                assert(entry_names(self.entries@) =~= entry_names(s).push(name@));
            },
        }
    }
}

impl<V> NamedMap<V> {
    /// The value at position `i`, to be changed in place.
    pub fn value_at_mut(&mut self, i: usize) -> (r: &mut V)
        requires
            old(self).wf(),
            i < old(self).names().len(),
        ensures
            old(self)@.contains_key(old(self).names()[i as int]),
            *r == old(self)@[old(self).names()[i as int]],
            final(self).wf(),
            final(self).names() == old(self).names(),
            final(self)@ == old(self)@.insert(old(self).names()[i as int], *final(r)),
    {
        proof {
            lemma_entries_map_index(self.entries@, i as int);
        }
        let ghost s = self.entries@;
        let entry = &mut self.entries[i];
        proof {
            lemma_entries_map_update(s, i as int, (s[i as int].0, (*final(entry)).1));
            assert(entry_names(s.update(i as int, (s[i as int].0, (*final(entry)).1))) =~= entry_names(s));
        }
        &mut entry.1
    }
}

} // verus!
