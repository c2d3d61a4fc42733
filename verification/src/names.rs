//! Small collections keyed by text: a set of names, and a number for each of
//! some names. A name is looked up by its hash.

use vstd::hash_map::StringHashMap;
use vstd::hash_set::StringHashSet;
use vstd::prelude::*;
use vstd::string::*;

verus! {

/// A set of names.
pub struct NameSet {
    items: StringHashSet,
}

impl View for NameSet {
    type V = Set<Seq<char>>;

    closed spec fn view(&self) -> Set<Seq<char>> {
        self.items@
    }
}

impl NameSet {
    #[verifier::type_invariant]
    spec fn bounded(self) -> bool {
        self.items@.finite()
    }

    /// The set without a name.
    pub fn new() -> (r: Self)
        ensures
            r@ == Set::<Seq<char>>::empty(),
    {
        NameSet { items: StringHashSet::new() }
    }

    /// Is the name in the set?
    pub fn contains(&self, name: &str) -> (r: bool)
        ensures
            r == self@.contains(name@),
    {
        self.items.contains(name)
    }

    /// The number of names.
    pub fn len(&self) -> (r: usize)
        ensures
            r == self@.len(),
            self@.finite(),
    {
        proof {
            use_type_invariant(self);
        }
        self.items.len()
    }

    /// Puts a name into the set.
    pub fn insert(&mut self, name: &str)
        ensures
            final(self)@ == old(self)@.insert(name@),
    {
        proof {
            use_type_invariant(&*self);
        }
        let mut items: StringHashSet = StringHashSet::new();
        std::mem::swap(&mut items, &mut self.items);
        items.insert(name.to_owned());
        self.items = items;
    }

    /// Takes a name out of the set.
    pub fn remove(&mut self, name: &str)
        ensures
            final(self)@ == old(self)@.remove(name@),
    {
        proof {
            use_type_invariant(&*self);
        }
        let mut items: StringHashSet = StringHashSet::new();
        std::mem::swap(&mut items, &mut self.items);
        items.remove(name);
        self.items = items;
    }

    /// Takes all names out of the set.
    pub fn clear(&mut self)
        ensures
            final(self)@ == Set::<Seq<char>>::empty(),
    {
        self.items = StringHashSet::new();
    }
}

/// A number for each of some names.
pub struct NameCounts {
    items: StringHashMap<u32>,
}

impl View for NameCounts {
    type V = Map<Seq<char>, u32>;

    closed spec fn view(&self) -> Map<Seq<char>, u32> {
        self.items@
    }
}

impl NameCounts {
    /// No numbers.
    pub fn new() -> (r: Self)
        ensures
            r@ == Map::<Seq<char>, u32>::empty(),
    {
        NameCounts { items: StringHashMap::new() }
    }

    /// The number of a name.
    pub fn get(&self, name: &str) -> (r: Option<u32>)
        ensures
            match r {
                Some(n) => self@.contains_key(name@) && self@[name@] == n,
                None => !self@.contains_key(name@),
            },
    {
        match self.items.get(name) {
            Some(n) => Some(*n),
            None => None,
        }
    }

    /// Gives a name a number.
    pub fn set(&mut self, name: &str, n: u32)
        ensures
            final(self)@ == old(self)@.insert(name@, n),
    {
        self.items.insert(name.to_owned(), n);
    }

    /// Forgets all names.
    pub fn clear(&mut self)
        ensures
            final(self)@ == Map::<Seq<char>, u32>::empty(),
    {
        self.items.clear();
    }
}

} // verus!
