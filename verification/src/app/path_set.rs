//! A set of photographs.
use crate::path;
use crate::path::{Identity, PhotoPath};
use vstd::prelude::*;

verus! {

/// Some photographs, each at most once.
#[derive(Debug)]
pub struct PathSet {
    pub members: Vec<PhotoPath>,
}

/// The paths of some photographs.
pub open spec fn gathered(list: Seq<PhotoPath>) -> Set<Seq<u8>> {
    Set::new(|k: Seq<u8>| path::keys(list).contains(k))
}

impl View for PathSet {
    type V = Set<Seq<u8>>;

    open spec fn view(&self) -> Set<Seq<u8>> {
        gathered(self.members@)
    }
}

proof fn lemma_pushed(list: Seq<PhotoPath>, p: PhotoPath)
    ensures
        gathered(list.push(p)) == gathered(list).insert(p@),
{
    let before = path::keys(list);
    let now = path::keys(list.push(p));
    assert(now =~= before.push(p@));
    assert forall|k: Seq<u8>| now.contains(k) <==> before.contains(k) || k == p@ by {
        if before.contains(k) {
            let i = choose|i: int| 0 <= i < before.len() && before[i] == k;
            assert(now[i] == k);
        }
        assert(now[before.len() as int] == p@);
    }
    assert(gathered(list.push(p)) =~= gathered(list).insert(p@));
}

impl PathSet {
    pub fn new() -> (out: Self)
        ensures
            out@ == Set::<Seq<u8>>::empty(),
    {
        let out = PathSet { members: Vec::new() };
        assert(out@ =~= Set::<Seq<u8>>::empty());
        out
    }

    pub fn contains(&self, p: &PhotoPath) -> (out: bool)
        ensures
            out == self@.contains(p@),
    {
        proof {
            path::lemma_first_position(path::keys(self.members@), p@);
        }
        path::position_of(&self.members, p).is_some()
    }

    pub fn is_empty(&self) -> (out: bool)
        ensures
            out == (self@ == Set::<Seq<u8>>::empty()),
    {
        proof {
            if self.members@.len() > 0 {
                assert(path::keys(self.members@)[0] == self.members@[0]@);
                assert(self@.contains(self.members@[0]@));
            } else {
                assert(self@ =~= Set::<Seq<u8>>::empty());
            }
        }
        self.members.len() == 0
    }

    /// Takes up a photograph.
    pub fn insert(&mut self, p: PhotoPath)
        ensures
            final(self)@ == old(self)@.insert(p@),
    {
        if self.contains(&p) {
            assert(self@ =~= self@.insert(p@));
        } else {
            proof {
                lemma_pushed(self.members@, p);
            }
            self.members.push(p);
        }
    }

    pub fn clear(&mut self)
        ensures
            final(self)@ == Set::<Seq<u8>>::empty(),
    {
        self.members.clear();
        assert(self@ =~= Set::<Seq<u8>>::empty());
    }

    /// Drops a photograph. Says whether it was there.
    pub fn remove(&mut self, p: &PhotoPath) -> (out: bool)
        ensures
            final(self)@ == old(self)@.remove(p@),
            out == old(self)@.contains(p@),
    {
        let there = self.contains(p);
        let mut kept: Vec<PhotoPath> = Vec::new();
        let mut i: usize = 0;
        assert(gathered(self.members@.take(0)).remove(p@) =~= gathered(kept@));
        while i < self.members.len()
            invariant
                i <= self.members@.len(),
                *self == *old(self),
                gathered(kept@) == gathered(self.members@.take(i as int)).remove(p@),
            decreases self.members@.len() - i,
        {
            proof {
                let before = self.members@.take(i as int);
                let m = self.members@[i as int];
                lemma_pushed(before, m);
                assert(self.members@.take(i + 1) =~= before.push(m));
                if m@ == p@ {
                    assert(gathered(before).insert(m@).remove(p@) =~= gathered(before).remove(p@));
                } else {
                    assert(gathered(before).insert(m@).remove(p@) =~= gathered(before).remove(
                        p@,
                    ).insert(m@));
                }
            }
            if !self.members[i].same(p) {
                let m = self.members[i].copied();
                proof {
                    lemma_pushed(kept@, m);
                }
                kept.push(m);
            }
            i += 1;
        }
        assert(self.members@.take(i as int) =~= self.members@);
        self.members = kept;
        there
    }

    /// Keeps the photographs of a list only.
    pub fn retain(&mut self, list: &Vec<PhotoPath>)
        ensures
            final(self)@ == old(self)@.intersect(gathered(list@)),
    {
        let mut kept: Vec<PhotoPath> = Vec::new();
        let mut i: usize = 0;
        assert(gathered(self.members@.take(0)).intersect(gathered(list@)) =~= gathered(kept@));
        while i < self.members.len()
            invariant
                i <= self.members@.len(),
                *self == *old(self),
                gathered(kept@) == gathered(self.members@.take(i as int)).intersect(
                    gathered(list@),
                ),
            decreases self.members@.len() - i,
        {
            proof {
                let before = self.members@.take(i as int);
                let m = self.members@[i as int];
                lemma_pushed(before, m);
                assert(self.members@.take(i + 1) =~= before.push(m));
                path::lemma_first_position(path::keys(list@), m@);
                let grown = gathered(before).insert(m@).intersect(gathered(list@));
                if gathered(list@).contains(m@) {
                    assert(grown =~= gathered(before).intersect(gathered(list@)).insert(m@));
                } else {
                    assert(grown =~= gathered(before).intersect(gathered(list@)));
                }
            }
            if path::position_of(list, &self.members[i]).is_some() {
                let m = self.members[i].copied();
                proof {
                    lemma_pushed(kept@, m);
                }
                kept.push(m);
            }
            i += 1;
        }
        assert(self.members@.take(i as int) =~= self.members@);
        self.members = kept;
    }
}

} // verus!
