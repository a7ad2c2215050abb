//! A map keyed by text.
use crate::text::{first_where, lemma_first_where, lemma_first_where_found, same};
use vstd::prelude::*;

verus! {

/// Entries by text key, in the order in which the keys were first given.
#[derive(Debug)]
pub struct TextMap<V> {
    entries: Vec<(String, V)>,
}

/// The test for being an entry with the key `k`.
pub open spec fn keyed<V>(k: Seq<char>) -> spec_fn((String, V)) -> bool {
    |e: (String, V)| e.0@ == k
}

impl<V> View for TextMap<V> {
    type V = Map<Seq<char>, V>;

    closed spec fn view(&self) -> Map<Seq<char>, V> {
        Map::new(
            |k: Seq<char>| first_where(self.entries@, keyed(k)) < self.entries@.len(),
            |k: Seq<char>| self.entries@[first_where(self.entries@, keyed(k))].1,
        )
    }
}

impl<V> TextMap<V> {
    /// No key occurs twice.
    pub closed spec fn wf(&self) -> bool {
        forall|i: int, j: int|
            0 <= i < self.entries@.len() && 0 <= j < self.entries@.len() && i != j
                ==> self.entries@[i].0@ != self.entries@[j].0@
    }

    /// The keys, in the order in which they were first given.
    pub closed spec fn keys(&self) -> Seq<Seq<char>> {
        self.entries@.map_values(|e: (String, V)| e.0@)
    }

    /// The keys are the map's keys, each once.
    pub proof fn lemma_keys(&self)
        requires
            self.wf(),
        ensures
            self.keys().no_duplicates(),
            forall|k: Seq<char>| #[trigger] self.keys().contains(k) <==> self@.contains_key(k),
    {
        assert forall|k: Seq<char>| #[trigger] self.keys().contains(k) <==> self@.contains_key(
            k,
        ) by {
            lemma_first_where_found(self.entries@, keyed(k));
            let i = first_where(self.entries@, keyed(k));
            if i < self.entries@.len() {
                assert(self.keys()[i] == k);
            }
            if self.keys().contains(k) {
                let j = self.keys().index_of(k);
                assert(keyed::<V>(k)(self.entries@[j]));
            }
        }
    }

    pub fn new() -> (r: Self)
        ensures
            r.wf(),
            r@ == Map::<Seq<char>, V>::empty(),
            r.keys() == Seq::<Seq<char>>::empty(),
    {
        let r = TextMap { entries: Vec::new() };
        assert(r@ =~= Map::<Seq<char>, V>::empty());
        assert(r.keys() =~= Seq::<Seq<char>>::empty());
        r
    }

    fn find(&self, key: &str) -> (r: usize)
        ensures
            r == first_where(self.entries@, keyed(key@)),
            r <= self.entries@.len(),
            r < self.entries@.len() ==> self.entries@[r as int].0@ == key@,
    {
        let mut i: usize = 0;
        while i < self.entries.len()
            invariant
                i <= self.entries@.len(),
                forall|j: int| 0 <= j < i ==> (#[trigger] self.entries@[j]).0@ != key@,
            decreases self.entries@.len() - i,
        {
            if same(self.entries[i].0.as_str(), key) {
                proof {
                    lemma_first_where(self.entries@, keyed(key@), i as int);
                }
                return i;
            }
            i += 1;
        }
        proof {
            lemma_first_where(self.entries@, keyed(key@), i as int);
        }
        i
    }

    /// The value under `key`.
    pub fn get(&self, key: &str) -> (r: Option<&V>)
        ensures
            (r is Some) == self@.contains_key(key@),
            r is Some ==> *r->0 == self@[key@],
    {
        let at: usize = self.find(key);
        if at < self.entries.len() {
            Some(&self.entries[at].1)
        } else {
            None
        }
    }

    /// Whether there is a value under `key`.
    pub fn contains_key(&self, key: &str) -> (r: bool)
        ensures
            r == self@.contains_key(key@),
    {
        self.find(key) < self.entries.len()
    }

    /// Puts `value` under `key`, in place of any earlier value.
    pub fn insert(&mut self, key: String, value: V)
        requires
            old(self).wf(),
        ensures
            final(self).wf(),
            final(self)@ == old(self)@.insert(key@, value),
            final(self).keys() == if old(self)@.contains_key(key@) {
                old(self).keys()
            } else {
                old(self).keys().push(key@)
            },
    {
        let ghost start = *self;
        let at: usize = self.find(key.as_str());
        if at < self.entries.len() {
            self.entries[at].1 = value;
            proof {
                assert forall|k: Seq<char>| true implies #[trigger] first_where(
                    self.entries@,
                    keyed(k),
                ) == first_where(start.entries@, keyed(k)) by {
                    lemma_first_where_found(start.entries@, keyed(k));
                    let i = first_where(start.entries@, keyed(k));
                    assert forall|j: int| 0 <= j < self.entries@.len() implies (
                    #[trigger] self.entries@[j]).0@ == start.entries@[j].0@ by {}
                    lemma_first_where(self.entries@, keyed(k), i);
                }
                assert(self@ =~= start@.insert(key@, value)) by {
                    assert forall|k: Seq<char>| start@.contains_key(k) && k != key@ implies self@[k]
                        == start@[k] by {
                        lemma_first_where_found(start.entries@, keyed(k));
                    }
                }
                assert(self.keys() =~= start.keys());
            }
        } else {
            self.entries.push((key, value));
            proof {
                let n = start.entries@.len() as int;
                lemma_first_where_found(start.entries@, keyed(key@));
                assert forall|k: Seq<char>| true implies #[trigger] first_where(
                    self.entries@,
                    keyed(k),
                ) == if first_where(start.entries@, keyed(k)) < n {
                    first_where(start.entries@, keyed(k))
                } else if k == key@ {
                    n
                } else {
                    n + 1
                } by {
                    lemma_first_where_found(start.entries@, keyed(k));
                    let i = first_where(start.entries@, keyed(k));
                    if i < n {
                        lemma_first_where(self.entries@, keyed(k), i);
                    } else if k == key@ {
                        lemma_first_where(self.entries@, keyed(k), n);
                    } else {
                        lemma_first_where(self.entries@, keyed(k), n + 1);
                    }
                }
                assert(self@ =~= start@.insert(key@, value)) by {
                    assert forall|k: Seq<char>| start@.contains_key(k) && k != key@ implies self@[k]
                        == start@[k] by {
                        lemma_first_where_found(start.entries@, keyed(k));
                    }
                }
                assert(self.keys() =~= start.keys().push(key@));
                assert(self.wf()) by {
                    assert forall|i: int, j: int|
                        0 <= i < self.entries@.len() && 0 <= j < self.entries@.len() && i
                            != j implies self.entries@[i].0@ != self.entries@[j].0@ by {
                        if i == n {
                            assert(!keyed::<V>(key@)(start.entries@[j]));
                        } else if j == n {
                            assert(!keyed::<V>(key@)(start.entries@[i]));
                        } else {
                            assert(start.entries@[i].0@ != start.entries@[j].0@);
                        }
                    }
                }
            }
        }
    }

    /// How many keys there are.
    pub fn len(&self) -> (r: usize)
        ensures
            r == self.keys().len(),
    {
        self.entries.len()
    }

    /// The `i`-th key.
    pub fn key_at(&self, i: usize) -> (r: &str)
        requires
            i < self.keys().len(),
        ensures
            r@ == self.keys()[i as int],
    {
        self.entries[i].0.as_str()
    }
}

impl TextMap<String> {
    /// The text under each key.
    pub open spec fn text(&self) -> Map<Seq<char>, Seq<char>> {
        self@.map_values(|s: String| s@)
    }

    /// A copy of the text under `key`, or the empty text.
    pub fn text_or_empty(&self, key: &str) -> (r: String)
        ensures
            r@ == if self.text().contains_key(key@) {
                self.text()[key@]
            } else {
                Seq::empty()
            },
    {
        match self.get(key) {
            Some(v) => v.clone(),
            None => String::new(),
        }
    }
}

} // verus!
