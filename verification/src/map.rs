//! A map from text to values.

use crate::text::same;
use vstd::prelude::*;

verus! {

/// A map whose keys are strings. No key occurs twice, and the entries keep their order: a new key
/// comes last, and a key that is given another value stays where it is.
#[verifier::reject_recursive_types(V)]
pub struct StringMap<V: View> {
    entries: Vec<(String, V)>,
}

/// No two entries have the same key.
spec fn distinct<V: View>(e: Seq<(String, V)>) -> bool {
    forall|i: int, j: int| 0 <= i < j < e.len() ==> e[i].0@ != e[j].0@
}

/// The entries as a map of what they hold.
spec fn contents<V: View>(e: Seq<(String, V)>) -> Map<Seq<char>, V::V>
    decreases e.len(),
{
    if e.len() == 0 {
        Map::empty()
    } else {
        contents(e.drop_last()).insert(e.last().0@, e.last().1@)
    }
}

/// A list of entries without a repeated key holds exactly its entries.
proof fn lemma_contents<V: View>(e: Seq<(String, V)>)
    requires
        distinct(e),
    ensures
        contents(e).dom().finite(),
        contents(e).len() == e.len(),
        forall|i: int|
            0 <= i < e.len() ==> contents(e).contains_key(#[trigger] e[i].0@) && contents(
                e,
            )[e[i].0@] == e[i].1@,
        forall|k: Seq<char>| #[trigger]
            contents(e).contains_key(k) ==> exists|i: int| 0 <= i < e.len() && e[i].0@ == k,
    decreases e.len(),
{
    if e.len() > 0 {
        let front = e.drop_last();
        lemma_contents(front);
        let last = e.last().0@;
        assert(!contents(front).contains_key(last)) by {
            if contents(front).contains_key(last) {
                let i = choose|i: int| 0 <= i < front.len() && front[i].0@ == last;
                assert(e[i].0@ == e[e.len() - 1].0@);
            }
        }
        assert forall|i: int| 0 <= i < e.len() implies contents(e).contains_key(#[trigger] e[i].0@)
            && contents(e)[e[i].0@] == e[i].1@ by {
            if i < front.len() {
                assert(front[i] == e[i]);
            }
        }
        assert forall|k: Seq<char>| #[trigger] contents(e).contains_key(k) implies exists|i: int|
            0 <= i < e.len() && e[i].0@ == k by {
            if k == last {
                assert(e[e.len() - 1].0@ == k);
            } else {
                assert(contents(front).contains_key(k));
                let i = choose|i: int| 0 <= i < front.len() && front[i].0@ == k;
                assert(e[i].0@ == k);
            }
        }
    }
}

impl<V: View> View for StringMap<V> {
    type V = Map<Seq<char>, V::V>;

    closed spec fn view(&self) -> Map<Seq<char>, V::V> {
        contents(self.entries@)
    }
}

impl<V: View> StringMap<V> {
    #[verifier::type_invariant]
    spec fn inv(self) -> bool {
        distinct(self.entries@)
    }

    /// The map without entries.
    pub fn new() -> (m: Self)
        ensures
            m@ == Map::<Seq<char>, V::V>::empty(),
    {
        StringMap { entries: Vec::new() }
    }

    /// The key of entry `i`.
    pub closed spec fn key_at(&self, i: int) -> Seq<char> {
        self.entries@[i].0@
    }

    /// The number of entries. Every key is the key of one of them.
    pub fn len(&self) -> (n: usize)
        ensures
            n == self@.len(),
            self@.dom().finite(),
            forall|k: Seq<char>| #[trigger]
                self@.contains_key(k) ==> exists|i: int| 0 <= i < n && self.key_at(i) == k,
    {
        proof {
            use_type_invariant(self);
            lemma_contents(self.entries@);
            assert forall|k: Seq<char>| #[trigger] self@.contains_key(k) implies exists|i: int|
                0 <= i < self.entries@.len() && self.key_at(i) == k by {
                let i = choose|i: int| 0 <= i < self.entries@.len() && self.entries@[i].0@ == k;
                assert(self.key_at(i) == k);
            }
        }
        self.entries.len()
    }

    /// The key and the value of entry `i`.
    pub fn entry(&self, i: usize) -> (r: (&str, &V))
        requires
            i < self@.len(),
        ensures
            r.0@ == self.key_at(i as int),
            self@.contains_key(r.0@),
            self@[r.0@] == r.1@,
    {
        proof {
            use_type_invariant(self);
            lemma_contents(self.entries@);
        }
        (self.entries[i].0.as_str(), &self.entries[i].1)
    }

    /// The place of a key.
    fn place(&self, key: &str) -> (r: Option<usize>)
        ensures
            match r {
                Some(i) => i < self.entries@.len() && self.entries@[i as int].0@ == key@,
                None => forall|j: int| 0 <= j < self.entries@.len() ==> self.entries@[j].0@ != key@,
            },
    {
        let mut i: usize = 0;
        while i < self.entries.len()
            invariant
                i <= self.entries@.len(),
                forall|j: int| 0 <= j < i ==> self.entries@[j].0@ != key@,
            decreases self.entries@.len() - i,
        {
            if same(self.entries[i].0.as_str(), key) {
                return Some(i);
            }
            i = i + 1;
        }
        None
    }

    /// The value of a key.
    pub fn get(&self, key: &str) -> (r: Option<&V>)
        ensures
            match r {
                Some(v) => self@.contains_key(key@) && v@ == self@[key@],
                None => !self@.contains_key(key@),
            },
    {
        proof {
            use_type_invariant(self);
            lemma_contents(self.entries@);
        }
        match self.place(key) {
            Some(i) => Some(&self.entries[i].1),
            None => None,
        }
    }

    /// Gives a key a value, in place of the one that it had.
    pub fn insert(&mut self, key: String, value: V)
        ensures
            final(self)@ == old(self)@.insert(key@, value@),
    {
        proof {
            use_type_invariant(&*self);
            lemma_contents(self.entries@);
        }
        let ghost before = self.entries@;
        let mut entries: Vec<(String, V)> = Vec::new();
        let place = self.place(key.as_str());
        std::mem::swap(&mut self.entries, &mut entries);
        match place {
            Some(i) => {
                entries.set(i, (key, value));
                assert(entries@ == before.update(i as int, (key, value)));
                assert(distinct(entries@));
            },
            None => {
                entries.push((key, value));
                assert(entries@.drop_last() =~= before);
            },
        }
        proof {
            lemma_contents(entries@);
            let now = contents(entries@);
            let then = contents(before).insert(key@, value@);
            assert forall|k: Seq<char>| now.contains_key(k) <==> then.contains_key(k) by {
                if now.contains_key(k) {
                    let i = choose|i: int| 0 <= i < entries@.len() && entries@[i].0@ == k;
                    if k != key@ {
                        assert(before[i].0@ == k);
                    }
                }
                if contents(before).contains_key(k) {
                    let i = choose|i: int| 0 <= i < before.len() && before[i].0@ == k;
                    assert(entries@[i].0@ == k);
                }
                if k == key@ {
                    match place {
                        Some(i) => assert(entries@[i as int].0@ == k),
                        None => assert(entries@[before.len() as int].0@ == k),
                    }
                }
            }
            assert forall|k: Seq<char>| now.contains_key(k) implies now[k] == then[k] by {
                let i = choose|i: int| 0 <= i < entries@.len() && entries@[i].0@ == k;
                assert(now[entries@[i].0@] == entries@[i].1@);
                if k != key@ {
                    assert(before[i].0@ == k);
                }
            }
            assert(now =~= then);
        }
        self.entries = entries;
    }

    /// Takes a key and its value out.
    pub fn remove(&mut self, key: &str)
        ensures
            final(self)@ == old(self)@.remove(key@),
    {
        proof {
            use_type_invariant(&*self);
            lemma_contents(self.entries@);
        }
        let ghost before = self.entries@;
        let place = self.place(key);
        if let Some(at) = place {
            let mut entries: Vec<(String, V)> = Vec::new();
            std::mem::swap(&mut self.entries, &mut entries);
            entries.remove(at);
            proof {
                let a = at as int;
                assert(entries@ == before.remove(a));
                assert forall|i: int| 0 <= i < entries@.len() implies entries@[i] == (if i < a {
                    before[i]
                } else {
                    before[i + 1]
                }) by {}
                assert(distinct(entries@));
                lemma_contents(entries@);
                let now = contents(entries@);
                let then = contents(before).remove(key@);
                assert forall|k: Seq<char>| now.contains_key(k) <==> then.contains_key(k) by {
                    if now.contains_key(k) {
                        let i = choose|i: int| 0 <= i < entries@.len() && entries@[i].0@ == k;
                        let j = if i < a {
                            i
                        } else {
                            i + 1
                        };
                        assert(before[j].0@ == k);
                    }
                    if then.contains_key(k) {
                        let j = choose|j: int| 0 <= j < before.len() && before[j].0@ == k;
                        let i = if j < a {
                            j
                        } else {
                            j - 1
                        };
                        assert(entries@[i].0@ == k);
                    }
                }
                assert forall|k: Seq<char>| now.contains_key(k) implies now[k] == then[k] by {
                    let i = choose|i: int| 0 <= i < entries@.len() && entries@[i].0@ == k;
                    assert(now[entries@[i].0@] == entries@[i].1@);
                    let j = if i < a {
                        i
                    } else {
                        i + 1
                    };
                    assert(before[j].0@ == k);
                }
                assert(now =~= then);
            }
            self.entries = entries;
        } else {
            assert(!self@.contains_key(key@));
            assert(self@ =~= self@.remove(key@));
        }
    }
}

} // verus!
