//! A small map from texts to values, kept as a list.

use vstd::prelude::*;

use crate::scan::same;

verus! {

/// A map from texts to values. No key occurs twice in the list behind it.
pub struct Table<V> {
    entries: Vec<(String, V)>,
}

/// Whether no key occurs twice.
spec fn distinct<V>(s: Seq<(String, V)>) -> bool {
    forall|i: int, j: int| 0 <= i < j < s.len() ==> #[trigger] s[i].0@ != #[trigger] s[j].0@
}

/// The map that a list of entries stands for: the last entry of a key counts.
pub open spec fn entries_map<V: View>(s: Seq<(String, V)>) -> Map<Seq<char>, V::V>
    decreases s.len(),
{
    if s.len() == 0 {
        Map::empty()
    } else {
        entries_map(s.drop_last()).insert(s.last().0@, s.last().1@)
    }
}

impl<V: View> View for Table<V> {
    type V = Map<Seq<char>, V::V>;

    closed spec fn view(&self) -> Map<Seq<char>, V::V> {
        entries_map(self.entries@)
    }
}

proof fn lemma_key_has_entry<V: View>(s: Seq<(String, V)>, k: Seq<char>)
    ensures
        entries_map(s).contains_key(k) <==> exists|i: int| 0 <= i < s.len() && #[trigger] s[i].0@ == k,
    decreases s.len(),
{
    if s.len() > 0 {
        let front = s.drop_last();
        lemma_key_has_entry(front, k);
        if entries_map(s).contains_key(k) {
            if s.last().0@ == k {
                assert(s[s.len() - 1].0@ == k);
            } else {
                let i = choose|i: int| 0 <= i < front.len() && #[trigger] front[i].0@ == k;
                assert(s[i].0@ == k);
            }
        }
        if exists|i: int| 0 <= i < s.len() && #[trigger] s[i].0@ == k {
            let i = choose|i: int| 0 <= i < s.len() && #[trigger] s[i].0@ == k;
            if i < s.len() - 1 {
                assert(front[i].0@ == k);
            }
        }
    }
}

impl<V> Table<V> {
    #[verifier::type_invariant]
    spec fn keys_distinct(self) -> bool {
        distinct(self.entries@)
    }
}

/// The map without a key stands for the list without its entry.
proof fn lemma_without_entry<V: View>(s: Seq<(String, V)>, at: int, k: Seq<char>)
    requires
        0 <= at < s.len(),
        s[at].0@ == k,
        distinct(s),
    ensures
        entries_map(s.remove(at)) == entries_map(s).remove(k),
        entries_map(s).contains_key(k),
        entries_map(s)[k] == s[at].1@,
        distinct(s.remove(at)),
    decreases s.len(),
{
    let front = s.drop_last();
    if at == s.len() - 1 {
        assert(s.remove(at) =~= front);
        lemma_key_has_entry(front, k);
        if entries_map(front).contains_key(k) {
            let i = choose|i: int| 0 <= i < front.len() && #[trigger] front[i].0@ == k;
            assert(s[i].0@ == s[at].0@);
        }
        assert(entries_map(s).remove(k) =~= entries_map(front));
    } else {
        assert(s[at].0@ != s[s.len() - 1].0@);
        assert forall|i: int, j: int| 0 <= i < j < front.len() implies #[trigger] front[i].0@ != #[trigger] front[j].0@ by {
            assert(s[i].0@ != s[j].0@);
        }
        lemma_without_entry(front, at, k);
        assert(s.remove(at).drop_last() =~= front.remove(at));
        assert(s.remove(at).last() == s.last());
        assert(entries_map(s).remove(k) =~= entries_map(front).remove(k).insert(s.last().0@, s.last().1@));
    }
    let rest = s.remove(at);
    assert forall|i: int, j: int| 0 <= i < j < rest.len() implies #[trigger] rest[i].0@ != #[trigger] rest[j].0@ by {
        let a = if i < at { i } else { i + 1 };
        let b = if j < at { j } else { j + 1 };
        assert(rest[i] == s[a]);
        assert(rest[j] == s[b]);
        assert(s[a].0@ != s[b].0@);
    }
}

/// The values of a list of entries.
spec fn entry_values<V: View>(s: Seq<(String, V)>) -> Seq<(Seq<char>, V::V)> {
    Seq::new(s.len(), |i: int| (s[i].0@, s[i].1@))
}

/// Each entry of the list is an entry of the map.
proof fn lemma_entry<V: View>(s: Seq<(String, V)>, at: int)
    requires
        0 <= at < s.len(),
        distinct(s),
    ensures
        entries_map(s).contains_key(s[at].0@),
        entries_map(s)[s[at].0@] == s[at].1@,
{
    lemma_without_entry(s, at, s[at].0@);
}

impl<V: View> Table<V> {
    /// The empty map.
    pub fn new() -> (r: Self)
        ensures
            r@ == Map::<Seq<char>, V::V>::empty(),
    {
        Table { entries: Vec::new() }
    }

    /// The entries of the map in the order of the list behind it.
    pub closed spec fn listed(&self) -> Seq<(Seq<char>, V::V)> {
        entry_values(self.entries@)
    }

    /// How many entries there are. The list holds each entry of the map once.
    pub fn count(&self) -> (r: usize)
        ensures
            r == self.listed().len(),
            forall|k: Seq<char>|
                #![trigger self@.contains_key(k)]
                self@.contains_key(k) <==> exists|i: int| 0 <= i < self.listed().len() && (#[trigger] self.listed()[i]).0 == k,
            forall|i: int|
                0 <= i < self.listed().len() ==> self@[(#[trigger] self.listed()[i]).0] == self.listed()[i].1,
            forall|i: int, j: int|
                0 <= i < j < self.listed().len() ==> (#[trigger] self.listed()[i]).0 != (#[trigger] self.listed()[j]).0,
    {
        proof {
            use_type_invariant(self);
            assert forall|k: Seq<char>| #![trigger self@.contains_key(k)] self@.contains_key(k) <==> exists|i: int|
                0 <= i < self.listed().len() && (#[trigger] self.listed()[i]).0 == k by {
                lemma_key_has_entry(self.entries@, k);
                if self@.contains_key(k) {
                    let i = choose|i: int| 0 <= i < self.entries@.len() && #[trigger] self.entries@[i].0@ == k;
                    assert(self.listed()[i].0 == k);
                }
                if exists|i: int| 0 <= i < self.listed().len() && (#[trigger] self.listed()[i]).0 == k {
                    let i = choose|i: int| 0 <= i < self.listed().len() && (#[trigger] self.listed()[i]).0 == k;
                    assert(self.entries@[i].0@ == k);
                }
            }
            assert forall|i: int| 0 <= i < self.listed().len() implies self@[(#[trigger] self.listed()[i]).0]
                == self.listed()[i].1 by {
                lemma_entry(self.entries@, i);
            }
            assert forall|i: int, j: int| 0 <= i < j < self.listed().len() implies (#[trigger] self.listed()[i]).0 != (
            #[trigger] self.listed()[j]).0 by {
                assert(self.entries@[i].0@ != self.entries@[j].0@);
            }
        }
        self.entries.len()
    }

    /// The key of one entry.
    pub fn key_at(&self, i: usize) -> (r: &str)
        requires
            i < self.listed().len(),
        ensures
            r@ == self.listed()[i as int].0,
    {
        self.entries[i].0.as_str()
    }

    /// The value of one entry.
    pub fn value_at(&self, i: usize) -> (r: &V)
        requires
            i < self.listed().len(),
        ensures
            r@ == self.listed()[i as int].1,
    {
        &self.entries[i].1
    }

    /// Where the entry of a key stands in the list.
    fn place(&self, k: &str) -> (r: Option<usize>)
        ensures
            match r {
                Some(i) => i < self.entries@.len() && self.entries@[i as int].0@ == k@,
                None => !self@.contains_key(k@),
            },
    {
        let mut i: usize = 0;
        while i < self.entries.len()
            invariant
                i <= self.entries@.len(),
                forall|j: int| 0 <= j < i ==> #[trigger] self.entries@[j].0@ != k@,
            decreases self.entries@.len() - i,
        {
            if same(self.entries[i].0.as_str(), k) {
                return Some(i);
            }
            i = i + 1;
        }
        proof {
            lemma_key_has_entry(self.entries@, k@);
        }
        None
    }

    /// The value of a key.
    pub fn get(&self, k: &str) -> (r: Option<&V>)
        ensures
            match r {
                Some(v) => self@.contains_key(k@) && self@[k@] == v@,
                None => !self@.contains_key(k@),
            },
    {
        match self.place(k) {
            Some(i) => {
                proof {
                    use_type_invariant(self);
                    lemma_entry(self.entries@, i as int);
                }
                Some(&self.entries[i].1)
            },
            None => None,
        }
    }

    /// Whether a key has a value.
    pub fn has(&self, k: &str) -> (r: bool)
        ensures
            r == self@.contains_key(k@),
    {
        self.get(k).is_some()
    }

    /// Takes the value of a key out of the map.
    pub fn take(&mut self, k: &str) -> (r: Option<V>)
        ensures
            final(self)@ == old(self)@.remove(k@),
            match r {
                Some(v) => old(self)@.contains_key(k@) && old(self)@[k@] == v@,
                None => !old(self)@.contains_key(k@),
            },
    {
        proof {
            use_type_invariant(&*self);
        }
        match self.place(k) {
            Some(i) => {
                proof {
                    lemma_without_entry(self.entries@, i as int, k@);
                }
                let mut entries: Vec<(String, V)> = Vec::new();
                std::mem::swap(&mut entries, &mut self.entries);
                let e = entries.remove(i);
                self.entries = entries;
                Some(e.1)
            },
            None => {
                assert(self@.remove(k@) =~= self@);
                None
            },
        }
    }

    /// Gives a key a value, in place of the one that it may have. Tells whether
    /// it had none.
    pub fn insert(&mut self, k: String, v: V) -> (r: bool)
        ensures
            final(self)@ == old(self)@.insert(k@, v@),
            r == !old(self)@.contains_key(k@),
    {
        let ghost before = self@;
        let r: bool = self.take(k.as_str()).is_none();
        proof {
            use_type_invariant(&*self);
            lemma_key_has_entry(self.entries@, k@);
        }
        let ghost mid = self.entries@;
        let ghost kk = k@;
        let ghost vv = v@;
        let mut entries: Vec<(String, V)> = Vec::new();
        std::mem::swap(&mut entries, &mut self.entries);
        entries.push((k, v));
        assert(entries@.drop_last() =~= mid);
        assert(before.remove(kk).insert(kk, vv) =~= before.insert(kk, vv));
        assert forall|i: int, j: int| 0 <= i < j < entries@.len() implies #[trigger] entries@[i].0@ != #[trigger] entries@[j].0@ by {
            assert(entries@[i] == mid[i]);
            if j < mid.len() {
                assert(mid[i].0@ != mid[j].0@);
            }
        }
        self.entries = entries;
        r
    }
}

}
