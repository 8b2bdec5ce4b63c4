//! The properties of one configured module, as read from a configuration
//! file: a map from property names to their text values.

use vstd::prelude::*;

use crate::strings::str_eq;

verus! {

/// The value stored for `key` in `es`: the first entry with that key.
pub open spec fn lookup_in(es: Seq<(String, String)>, key: Seq<char>) -> Option<Seq<char>>
    decreases es.len(),
{
    if es.len() == 0 {
        None
    } else if es[0].0@ == key {
        Some(es[0].1@)
    } else {
        lookup_in(es.drop_first(), key)
    }
}

/// Property names mapped to values.
pub struct Properties {
    entries: Vec<(String, String)>,
}

impl Properties {
    /// The value of property `key`, if it is set.
    pub closed spec fn lookup(&self, key: Seq<char>) -> Option<Seq<char>> {
        lookup_in(self.entries@, key)
    }

    /// No property set.
    pub fn new() -> (r: Self)
        ensures
            forall|k: Seq<char>| r.lookup(k) is None,
    {
        Properties { entries: Vec::new() }
    }

    /// Sets property `key` to `value`, replacing an earlier value.
    pub fn insert(&mut self, key: &str, value: &str)
        ensures
            forall|k: Seq<char>| #[trigger] final(self).lookup(k) == if k == key@ {
                Some(value@)
            } else {
                old(self).lookup(k)
            },
    {
        let ghost old_es = self.entries@;
        let mut i: usize = 0;
        while i < self.entries.len()
            invariant
                self.entries@ == old_es,
                old(self).entries@ == old_es,
                0 <= i <= old_es.len(),
                forall|j: int| 0 <= j < i ==> (#[trigger] old_es[j]).0@ != key@,
            decreases old_es.len() - i,
        {
            if str_eq(self.entries[i].0.as_str(), key) {
                let entry = (String::from_str(key), String::from_str(value));
                self.entries.set(i, entry);
                proof {
                    assert(old(self).entries@ == old_es);
                    assert forall|k: Seq<char>| #[trigger] self.lookup(k) == if k == key@ {
                        Some(value@)
                    } else {
                        old(self).lookup(k)
                    } by {
                        lemma_lookup_update(old_es, i as int, entry.0, entry.1, k);
                    }
                }
                return;
            }
            i = i + 1;
        }
        let entry = (String::from_str(key), String::from_str(value));
        self.entries.push(entry);
        proof {
            assert forall|k: Seq<char>| #[trigger] lookup_in(self.entries@, k) == if k == key@ {
                Some(value@)
            } else {
                lookup_in(old_es, k)
            } by {
                lemma_lookup_push(old_es, entry, k);
            }
        }
    }

    /// The value of property `key`, if it is set.
    pub fn get(&self, key: &str) -> (r: Option<&str>)
        ensures
            match r {
                Some(v) => self.lookup(key@) == Some(v@),
                None => self.lookup(key@) is None,
            },
    {
        let mut i: usize = 0;
        proof {
            assert(self.entries@.subrange(0, self.entries@.len() as int) =~= self.entries@);
        }
        while i < self.entries.len()
            invariant
                0 <= i <= self.entries@.len(),
                lookup_in(self.entries@, key@) == lookup_in(self.entries@.subrange(i as int, self.entries@.len() as int), key@),
            decreases self.entries@.len() - i,
        {
            if str_eq(self.entries[i].0.as_str(), key) {
                return Some(self.entries[i].1.as_str());
            }
            assert(self.entries@.subrange(i as int, self.entries@.len() as int).drop_first() =~= self.entries@.subrange(i + 1, self.entries@.len() as int));
            i = i + 1;
        }
        None
    }
}

proof fn lemma_lookup_push(es: Seq<(String, String)>, e: (String, String), k: Seq<char>)
    requires
        forall|j: int| 0 <= j < es.len() ==> (#[trigger] es[j]).0@ != e.0@,
    ensures
        lookup_in(es.push(e), k) == if k == e.0@ {
            Some(e.1@)
        } else {
            lookup_in(es, k)
        },
    decreases es.len(),
{
    reveal_with_fuel(lookup_in, 2);
    if es.len() == 0 {
        assert(es.push(e).drop_first() =~= Seq::<(String, String)>::empty());
        assert(es.push(e)[0] == e);
    } else {
        assert(es.push(e)[0] == es[0]);
        assert(es.push(e).drop_first() =~= es.drop_first().push(e));
        assert forall|j: int| 0 <= j < es.drop_first().len() implies (#[trigger] es.drop_first()[j]).0@ != e.0@ by {
            assert(es.drop_first()[j] == es[j + 1]);
        }
        lemma_lookup_push(es.drop_first(), e, k);
    }
}

proof fn lemma_lookup_update(es: Seq<(String, String)>, i: int, key: String, value: String, k: Seq<char>)
    requires
        0 <= i < es.len(),
        es[i].0@ == key@,
        forall|j: int| 0 <= j < i ==> (#[trigger] es[j]).0@ != key@,
    ensures
        lookup_in(es.update(i, (key, value)), k) == if k == key@ {
            Some(value@)
        } else {
            lookup_in(es, k)
        },
    decreases i,
{
    reveal_with_fuel(lookup_in, 2);
    if i == 0 {
        assert(es.update(i, (key, value)).drop_first() =~= es.drop_first());
        assert(es.update(i, (key, value))[0] == (key, value));
    } else {
        assert(es.update(i, (key, value)).drop_first() =~= es.drop_first().update(i - 1, (key, value)));
        assert(es.update(i, (key, value))[0] == es[0]);
        assert forall|j: int| 0 <= j < i - 1 implies (#[trigger] es.drop_first()[j]).0@ != key@ by {
            assert(es.drop_first()[j] == es[j + 1]);
        }
        lemma_lookup_update(es.drop_first(), i - 1, key, value, k);
    }
}

} // verus!
