//! The configured set of simple names, and the alias map from the simple names
//! of removed imports to their qualified names.

use vstd::prelude::*;
use crate::bytes::bytes_equal;

verus! {

/// A set of byte strings.
pub struct NameSet {
    items: Vec<Vec<u8>>,
}

impl View for NameSet {
    type V = Set<Seq<u8>>;

    closed spec fn view(&self) -> Set<Seq<u8>> {
        Set::new(|s: Seq<u8>| exists|i: int| 0 <= i < self.items@.len() && #[trigger] self.items@[i]@ == s)
    }
}

impl NameSet {
    pub fn new() -> (r: NameSet)
        ensures
            r@ == Set::<Seq<u8>>::empty(),
    {
        let r = NameSet { items: Vec::new() };
        assert(r@ =~= Set::<Seq<u8>>::empty());
        r
    }

    pub fn contains(&self, name: &[u8]) -> (r: bool)
        ensures
            r == self@.contains(name@),
    {
        let mut i: usize = 0;
        while i < self.items.len()
            invariant
                i <= self.items@.len(),
                forall|j: int| 0 <= j < i ==> #[trigger] self.items@[j]@ != name@,
            decreases self.items@.len() - i,
        {
            if bytes_equal(self.items[i].as_slice(), name) {
                assert(self.items@[i as int]@ == name@);
                return true;
            }
            i = i + 1;
        }
        false
    }

    pub fn insert(&mut self, name: Vec<u8>)
        ensures
            final(self)@ == old(self)@.insert(name@),
    {
        if !self.contains(name.as_slice()) {
            self.items.push(name);
        }
        assert forall|s: Seq<u8>| #[trigger] final(self)@.contains(s) == old(self)@.insert(name@).contains(s) by {
            if old(self)@.insert(name@).contains(s) && s != name@ {
                let i = choose|i: int| 0 <= i < old(self).items@.len() && #[trigger] old(self).items@[i]@ == s;
                assert(self.items@[i]@ == s);
            }
            if s == name@ && !old(self)@.contains(s) {
                assert(self.items@[self.items@.len() - 1]@ == s);
            }
        }
        assert(final(self)@ =~= old(self)@.insert(name@));
    }

    /// The names, in an unspecified order.
    pub fn to_vec(&self) -> (r: Vec<Vec<u8>>)
        ensures
            forall|s: Seq<u8>| self@.contains(s) <==> exists|i: int| 0 <= i < r@.len() && #[trigger] r@[i]@ == s,
    {
        let mut r: Vec<Vec<u8>> = Vec::new();
        let mut i: usize = 0;
        while i < self.items.len()
            invariant
                i <= self.items@.len(),
                r@.len() == i,
                forall|j: int| 0 <= j < i ==> #[trigger] r@[j]@ == self.items@[j]@,
            decreases self.items@.len() - i,
        {
            r.push(self.items[i].clone());
            i = i + 1;
        }
        assert forall|s: Seq<u8>| self@.contains(s) <==> exists|i: int| 0 <= i < r@.len() && #[trigger] r@[i]@ == s by {
            if self@.contains(s) {
                let i = choose|i: int| 0 <= i < self.items@.len() && #[trigger] self.items@[i]@ == s;
                assert(r@[i]@ == s);
            }
            if exists|i: int| 0 <= i < r@.len() && #[trigger] r@[i]@ == s {
                let i = choose|i: int| 0 <= i < r@.len() && #[trigger] r@[i]@ == s;
                assert(self.items@[i]@ == s);
            }
        }
        r
    }
}

/// The map an entry list stands for: a later entry for a key replaces an
/// earlier one.
pub open spec fn entries_map(entries: Seq<(Vec<u8>, Vec<u8>)>) -> Map<Seq<u8>, Seq<u8>>
    decreases entries.len(),
{
    if entries.len() == 0 {
        Map::empty()
    } else {
        entries_map(entries.drop_last()).insert(entries.last().0@, entries.last().1@)
    }
}

/// A map from byte strings to byte strings.
pub struct AliasMap {
    entries: Vec<(Vec<u8>, Vec<u8>)>,
}

impl View for AliasMap {
    type V = Map<Seq<u8>, Seq<u8>>;

    closed spec fn view(&self) -> Map<Seq<u8>, Seq<u8>> {
        entries_map(self.entries@)
    }
}

impl AliasMap {
    pub fn new() -> (r: AliasMap)
        ensures
            r@ == Map::<Seq<u8>, Seq<u8>>::empty(),
    {
        AliasMap { entries: Vec::new() }
    }

    /// Sets the value of `key` to `value`, replacing any earlier one.
    pub fn insert(&mut self, key: Vec<u8>, value: Vec<u8>)
        ensures
            final(self)@ == old(self)@.insert(key@, value@),
    {
        self.entries.push((key, value));
        assert(self.entries@.drop_last() =~= old(self).entries@);
    }

    /// The value of `key`, if it has one.
    pub fn get(&self, key: &[u8]) -> (r: Option<&Vec<u8>>)
        ensures
            match r {
                Some(v) => self@.contains_key(key@) && v@ == self@[key@],
                None => !self@.contains_key(key@),
            },
    {
        let ghost all = self.entries@;
        let mut i: usize = self.entries.len();
        assert(all.subrange(0, i as int) =~= all);
        while i > 0
            invariant
                i <= all.len(),
                all == self.entries@,
                entries_map(all.subrange(0, i as int)).contains_key(key@) == entries_map(all).contains_key(key@),
                entries_map(all.subrange(0, i as int)).contains_key(key@) ==> entries_map(all.subrange(0, i as int))[key@] == entries_map(all)[key@],
            decreases i,
        {
            let ghost prefix = all.subrange(0, i as int);
            assert(prefix.drop_last() =~= all.subrange(0, i - 1));
            if bytes_equal(self.entries[i - 1].0.as_slice(), key) {
                return Some(&self.entries[i - 1].1);
            }
            i = i - 1;
        }
        assert(all.subrange(0, 0) =~= Seq::<(Vec<u8>, Vec<u8>)>::empty());
        None
    }

    /// Whether no key has a value.
    pub fn is_empty(&self) -> (r: bool)
        ensures
            r == (self@ == Map::<Seq<u8>, Seq<u8>>::empty()),
    {
        if self.entries.len() == 0 {
            true
        } else {
            let ghost last = self.entries@.last();
            assert(self@.contains_key(last.0@));
            false
        }
    }
}

} // verus!
