//! A map from paths, walked in the order of the paths.
use crate::browser::directory;
use crate::browser::directory::Order;
use crate::path;
use crate::path::PhotoPath;
use vstd::prelude::*;

verus! {

/// A map from paths to values. Its members are walked in the order of the paths.
#[derive(Debug)]
pub struct PathMap<V> {
    pub entries: Vec<(PhotoPath, V)>,
}

/// Each path comes before those behind it.
pub open spec fn ascending(keys: Seq<Seq<u8>>) -> bool {
    forall|i: int, j: int|
        0 <= i < j < keys.len() ==> directory::path_order(#[trigger] keys[i], #[trigger] keys[j])
            == Order::Less
}

impl<V> PathMap<V> {
    /// The paths, in order.
    pub open spec fn keys(&self) -> Seq<Seq<u8>> {
        Seq::new(self.entries@.len(), |i: int| self.entries@[i].0@)
    }

    /// The paths are in order, each once.
    #[verifier::opaque]
    pub open spec fn sound(&self) -> bool {
        ascending(self.keys())
    }
}

impl<V> View for PathMap<V> {
    type V = Map<Seq<u8>, V>;

    open spec fn view(&self) -> Map<Seq<u8>, V> {
        Map::new(
            |k: Seq<u8>| self.keys().contains(k),
            |k: Seq<u8>| self.entries@[path::first_position(self.keys(), k)->0].1,
        )
    }
}

proof fn lemma_distinct(keys: Seq<Seq<u8>>, i: int, j: int)
    requires
        ascending(keys),
        0 <= i < keys.len(),
        0 <= j < keys.len(),
        keys[i] == keys[j],
    ensures
        i == j,
{
    directory::lemma_path_order(keys[i], keys[j], keys[j]);
}

impl<V> PathMap<V> {
    pub proof fn lemma_lookup(&self, i: int)
        requires
            self.sound(),
            0 <= i < self.entries@.len(),
        ensures
            self@.contains_key(self.keys()[i]),
            self@[self.keys()[i]] == self.entries@[i].1,
    {
        reveal(PathMap::sound);
        let k = self.keys()[i];
        path::lemma_first_position(self.keys(), k);
        assert(self.keys().contains(k));
        lemma_distinct(self.keys(), i, path::first_position(self.keys(), k)->0);
    }

    pub fn new() -> (out: Self)
        ensures
            out.sound(),
            out@ == Map::<Seq<u8>, V>::empty(),
            out.keys() == Seq::<Seq<u8>>::empty(),
    {
        proof {
            reveal(PathMap::sound);
        }
        let out = PathMap { entries: Vec::new() };
        assert(out.keys() =~= Seq::<Seq<u8>>::empty());
        assert(out@ =~= Map::<Seq<u8>, V>::empty());
        out
    }

    pub fn len(&self) -> (out: usize)
        ensures
            out == self.keys().len(),
    {
        self.entries.len()
    }

    /// The position of a path, or where it belongs.
    fn find(&self, k: &PhotoPath) -> (out: Result<usize, usize>)
        requires
            self.sound(),
        ensures
            match out {
                Ok(i) => i < self.entries@.len() && self.keys()[i as int] == k@,
                Err(i) => {
                    &&& i <= self.entries@.len()
                    &&& !self.keys().contains(k@)
                    &&& forall|j: int|
                        0 <= j < i ==> directory::path_order(#[trigger] self.keys()[j], k@)
                            == Order::Less
                    &&& forall|j: int|
                        i <= j < self.entries@.len() ==> directory::path_order(
                            k@,
                            #[trigger] self.keys()[j],
                        ) == Order::Less
                },
            },
    {
        proof {
            reveal(PathMap::sound);
        }
        let ghost keys = self.keys();
        let mut low: usize = 0;
        let mut high: usize = self.entries.len();
        while low < high
            invariant
                low <= high <= self.entries@.len(),
                keys == self.keys(),
                self.sound(),
                forall|j: int|
                    0 <= j < low ==> directory::path_order(#[trigger] keys[j], k@) == Order::Less,
                forall|j: int|
                    high <= j < keys.len() ==> directory::path_order(k@, #[trigger] keys[j])
                        == Order::Less,
            decreases high - low,
        {
            let middle: usize = low + (high - low) / 2;
            assert(keys[middle as int] == self.entries@[middle as int].0@);
            proof {
                directory::lemma_path_order(keys[middle as int], k@, k@);
            }
            match directory::compare_paths(&self.entries[middle].0, k) {
                Order::Equal => {
                    return Ok(middle);
                },
                Order::Less => {
                    proof {
                        reveal(PathMap::sound);
                        assert forall|j: int| 0 <= j < middle + 1 implies directory::path_order(
                            #[trigger] keys[j],
                            k@,
                        ) == Order::Less by {
                            if j < middle {
                                assert(directory::path_order(keys[j], keys[middle as int])
                                    == Order::Less);
                                directory::lemma_path_order(keys[j], keys[middle as int], k@);
                            }
                        }
                    }
                    low = middle + 1;
                },
                Order::Greater => {
                    proof {
                        reveal(PathMap::sound);
                        assert forall|j: int|
                            middle <= j < keys.len() implies directory::path_order(
                            k@,
                            #[trigger] keys[j],
                        ) == Order::Less by {
                            if j > middle {
                                assert(directory::path_order(keys[middle as int], keys[j])
                                    == Order::Less);
                                directory::lemma_path_order(k@, keys[middle as int], keys[j]);
                            }
                        }
                    }
                    high = middle;
                },
            }
        }
        assert(!keys.contains(k@)) by {
            directory::lemma_path_order(k@, k@, k@);
        }
        Err(low)
    }

    pub fn get(&self, k: &PhotoPath) -> (out: Option<&V>)
        requires
            self.sound(),
        ensures
            match out {
                Some(v) => self@.contains_key(k@) && *v == self@[k@],
                None => !self@.contains_key(k@),
            },
    {
        proof {
            reveal(PathMap::sound);
        }
        match self.find(k) {
            Ok(i) => {
                proof {
                    self.lemma_lookup(i as int);
                }
                Some(&self.entries[i].1)
            },
            Err(_) => None,
        }
    }

    pub fn contains_key(&self, k: &PhotoPath) -> (out: bool)
        requires
            self.sound(),
        ensures
            out == self@.contains_key(k@),
    {
        proof {
            reveal(PathMap::sound);
        }
        self.get(k).is_some()
    }

    /// Sets the value of a path.
    pub fn insert(&mut self, k: PhotoPath, v: V)
        requires
            old(self).sound(),
        ensures
            final(self).sound(),
            final(self)@ == old(self)@.insert(k@, v),
    {
        proof {
            reveal(PathMap::sound);
        }
        let ghost before = *self;
        match self.find(&k) {
            Ok(i) => {
                self.entries.set(i, (k, v));
                assert(self.keys() =~= before.keys());
                proof {
                    assert forall|key: Seq<u8>| #[trigger]
                        self@.contains_key(key) implies self@[key] == before@.insert(k@, v)[key] by {
                        let at = choose|at: int| 0 <= at < self.keys().len() && self.keys()[at] == key;
                        self.lemma_lookup(at);
                        before.lemma_lookup(at);
                        if at != i {
                            if key == k@ {
                                lemma_distinct(self.keys(), at, i as int);
                            }
                        }
                    }
                    before.lemma_lookup(i as int);
                }
                assert(self@ =~= before@.insert(k@, v));
            },
            Err(i) => {
                self.entries.insert(i, (k, v));
                assert(self.keys() =~= before.keys().insert(i as int, k@));
                proof {
                    assert forall|key: Seq<u8>| #[trigger]
                        self@.contains_key(key) <==> before@.insert(k@, v).contains_key(key) by {
                        if self@.contains_key(key) {
                            let at = choose|at: int|
                                0 <= at < self.keys().len() && self.keys()[at] == key;
                            if at < i {
                                assert(before.keys()[at] == key);
                            } else if at > i {
                                assert(before.keys()[at - 1] == key);
                            }
                        }
                        if before@.contains_key(key) {
                            let at = choose|at: int|
                                0 <= at < before.keys().len() && before.keys()[at] == key;
                            if at < i {
                                assert(self.keys()[at] == key);
                            } else {
                                assert(self.keys()[at + 1] == key);
                            }
                        }
                        if key == k@ {
                            assert(self.keys()[i as int] == key);
                        }
                    }
                    assert forall|key: Seq<u8>| #[trigger]
                        self@.contains_key(key) implies self@[key] == before@.insert(k@, v)[key] by {
                        let at = choose|at: int| 0 <= at < self.keys().len() && self.keys()[at] == key;
                        self.lemma_lookup(at);
                        if at < i {
                            before.lemma_lookup(at);
                            assert(before.keys()[at] == key);
                        } else if at > i {
                            before.lemma_lookup(at - 1);
                            assert(before.keys()[at - 1] == key);
                        }
                    }
                }
                assert(self@ =~= before@.insert(k@, v));
            },
        }
    }

    /// No path stands at two places.
    pub proof fn lemma_once(&self, i: int, j: int)
        requires
            self.sound(),
            0 <= i < self.entries@.len(),
            0 <= j < self.entries@.len(),
            self.keys()[i] == self.keys()[j],
        ensures
            i == j,
    {
        reveal(PathMap::sound);
        lemma_distinct(self.keys(), i, j);
    }

    /// Forgets the path at some place. Hands back its value.
    pub fn remove_at(&mut self, i: usize) -> (out: V)
        requires
            old(self).sound(),
            i < old(self).entries@.len(),
        ensures
            final(self).sound(),
            final(self)@ == old(self)@.remove(old(self).keys()[i as int]),
            final(self).entries@ == old(self).entries@.remove(i as int),
            out == old(self).entries@[i as int].1,
    {
        proof {
            reveal(PathMap::sound);
        }
        let ghost before = *self;
        let ghost k = before.keys()[i as int];
        let (_, v) = self.entries.remove(i);
        assert(self.keys() =~= before.keys().remove(i as int));
        proof {
            assert forall|key: Seq<u8>| #[trigger]
                self@.contains_key(key) <==> before@.remove(k).contains_key(key) by {
                if self@.contains_key(key) {
                    let at = choose|at: int| 0 <= at < self.keys().len() && self.keys()[at] == key;
                    let from = if at < i {
                        at
                    } else {
                        at + 1
                    };
                    assert(before.keys()[from] == key);
                    if key == k {
                        lemma_distinct(before.keys(), from, i as int);
                    }
                }
                if before@.contains_key(key) && key != k {
                    let at = choose|at: int|
                        0 <= at < before.keys().len() && before.keys()[at] == key;
                    assert(at != i);
                    assert(self.keys()[if at < i {
                        at
                    } else {
                        at - 1
                    }] == key);
                }
            }
            assert forall|key: Seq<u8>| #[trigger] self@.contains_key(key) implies self@[key]
                == before@[key] by {
                let at = choose|at: int| 0 <= at < self.keys().len() && self.keys()[at] == key;
                self.lemma_lookup(at);
                let from = if at < i {
                    at
                } else {
                    at + 1
                };
                before.lemma_lookup(from);
                assert(before.keys()[from] == key);
            }
        }
        assert(self@ =~= before@.remove(k));
        v
    }

    /// Forgets a path. Hands back its value.
    pub fn remove(&mut self, k: &PhotoPath) -> (out: Option<V>)
        requires
            old(self).sound(),
        ensures
            final(self).sound(),
            final(self)@ == old(self)@.remove(k@),
            match out {
                Some(v) => old(self)@.contains_key(k@) && v == old(self)@[k@],
                None => !old(self)@.contains_key(k@),
            },
    {
        proof {
            reveal(PathMap::sound);
        }
        match self.find(k) {
            Ok(i) => {
                proof {
                    self.lemma_lookup(i as int);
                }
                Some(self.remove_at(i))
            },
            Err(_) => {
                assert(self@ =~= self@.remove(k@));
                None
            },
        }
    }
}

} // verus!
