//! The textures at hand, the one used longest ago first.
use crate::path;
use crate::path::Identity;
use vstd::prelude::*;

verus! {

/// Photographs that may have a texture besides the reference.
pub const MAX_TEXTURES: usize = 3;

/// A texture on the GPU, known by a number.
#[derive(Clone, Copy, Debug, PartialEq, Eq, Structural)]
pub struct Texture {
    pub id: u64,
    pub orientation: u16,
    pub original_width: u32,
    pub original_height: u32,
    pub byte_size: usize,
}

/// Textures and their photographs.
#[derive(Debug)]
pub struct Shelf<P> {
    pub entries: Vec<(P, Texture)>,
}

impl<P: Identity> View for Shelf<P> {
    type V = Seq<(P::Key, Texture)>;

    open spec fn view(&self) -> Seq<(P::Key, Texture)> {
        self.entries@.map_values(|e: (P, Texture)| (e.0.key(), e.1))
    }
}

/// The photographs of some textures.
pub open spec fn owners<K>(s: Seq<(K, Texture)>) -> Seq<K> {
    s.map_values(|e: (K, Texture)| e.0)
}

/// The texture of a photograph.
pub open spec fn texture_of<K>(s: Seq<(K, Texture)>, k: K) -> Option<Texture> {
    match path::first_position(owners(s), k) {
        Some(i) => Some(s[i].1),
        None => None,
    }
}

/// The textures of some photographs, in order.
pub open spec fn among<K>(s: Seq<(K, Texture)>, list: Seq<K>) -> Seq<(K, Texture)>
    decreases s.len(),
{
    if s.len() == 0 {
        Seq::empty()
    } else if list.contains(s.last().0) {
        among(s.drop_last(), list).push(s.last())
    } else {
        among(s.drop_last(), list)
    }
}

/// Without the textures of a photograph.
pub open spec fn without<K>(s: Seq<(K, Texture)>, k: K) -> Seq<(K, Texture)>
    decreases s.len(),
{
    if s.len() == 0 {
        Seq::empty()
    } else if s.last().0 == k {
        without(s.drop_last(), k)
    } else {
        without(s.drop_last(), k).push(s.last())
    }
}

/// The last `n` textures.
pub open spec fn last_ones<K>(s: Seq<(K, Texture)>, n: int) -> Seq<(K, Texture)> {
    if s.len() > n {
        s.skip(s.len() - n)
    } else {
        s
    }
}

/// With the texture of a photograph as the one used last, and no more than fit.
pub open spec fn used<K>(s: Seq<(K, Texture)>, k: K, texture: Texture) -> Seq<(K, Texture)> {
    last_ones(without(s, k).push((k, texture)), MAX_TEXTURES as int)
}

proof fn lemma_without<K>(s: Seq<(K, Texture)>, k: K)
    ensures
        without(s, k).len() <= s.len(),
        !owners(without(s, k)).contains(k),
    decreases s.len(),
{
    if s.len() > 0 {
        lemma_without(s.drop_last(), k);
        let rest = without(s.drop_last(), k);
        if s.last().0 != k {
            assert(owners(rest.push(s.last())) =~= owners(rest).push(s.last().0));
        }
    }
}

/// A photograph that is shown has a texture, and few others have one.
pub proof fn law_shown_photographs_have_textures<K>(s: Seq<(K, Texture)>, k: K, texture: Texture)
    ensures
        texture_of(used(s, k, texture), k) == Some(texture),
        used(s, k, texture).len() <= MAX_TEXTURES,
{
    let rest = without(s, k);
    lemma_without(s, k);
    let all = rest.push((k, texture));
    let now = used(s, k, texture);
    let last = now.len() - 1;
    assert(now[last] == (k, texture));
    assert forall|j: int| 0 <= j < last implies owners(now)[j] != k by {
        let from = all.len() - now.len();
        assert(now[j] == rest[from + j]);
        assert(owners(rest)[from + j] == now[j].0);
    }
    assert(path::is_first(owners(now), k, last));
    path::lemma_first_position(owners(now), k);
}

impl<P: Identity> Shelf<P> {
    pub fn new() -> (out: Self)
        ensures
            out@ == Seq::<(P::Key, Texture)>::empty(),
    {
        let out = Shelf { entries: Vec::new() };
        assert(out@ =~= Seq::<(P::Key, Texture)>::empty());
        out
    }

    pub fn len(&self) -> (out: usize)
        ensures
            out == self@.len(),
    {
        self.entries.len()
    }

    /// The position of the texture of a photograph.
    pub fn position(&self, p: &P) -> (out: Option<usize>)
        ensures
            match path::first_position(owners(self@), p.key()) {
                Some(i) => out is Some && out->0 == i && i < self.entries@.len(),
                None => out is None,
            },
    {
        let ghost all = owners(self@);
        proof {
            path::lemma_first_position(all, p.key());
        }
        let mut i: usize = 0;
        while i < self.entries.len()
            invariant
                i <= self.entries@.len(),
                all == owners(self@),
                forall|k: int| 0 <= k < i ==> all[k] != p.key(),
            decreases self.entries@.len() - i,
        {
            assert(all[i as int] == self.entries@[i as int].0.key());
            if self.entries[i].0.same(p) {
                proof {
                    assert(path::is_first(all, p.key(), i as int));
                    path::lemma_first_position(all, p.key());
                }
                return Some(i);
            }
            i += 1;
        }
        proof {
            path::lemma_first_position(all, p.key());
        }
        None
    }

    /// The texture of a photograph.
    pub fn find(&self, p: &P) -> (out: Option<Texture>)
        ensures
            out == texture_of(self@, p.key()),
    {
        match self.position(p) {
            Some(i) => Some(self.entries[i].1),
            None => None,
        }
    }

    pub fn push(&mut self, p: P, texture: Texture)
        ensures
            final(self)@ == old(self)@.push((p.key(), texture)),
    {
        let ghost before = self@;
        self.entries.push((p, texture));
        assert(self@ =~= before.push((p.key(), texture)));
    }

    pub fn clear(&mut self)
        ensures
            final(self)@ == Seq::<(P::Key, Texture)>::empty(),
    {
        self.entries = Vec::new();
        assert(self@ =~= Seq::<(P::Key, Texture)>::empty());
    }

    /// Takes out the entry at a position.
    pub fn remove(&mut self, i: usize) -> (out: (P, Texture))
        requires
            i < old(self).entries@.len(),
        ensures
            final(self)@ == old(self)@.remove(i as int),
            (out.0.key(), out.1) == old(self)@[i as int],
    {
        let ghost before = self@;
        let out = self.entries.remove(i);
        assert(self@ =~= before.remove(i as int));
        out
    }

    /// Keeps the textures of some photographs.
    pub fn retain(&mut self, list: &Vec<P>)
        ensures
            final(self)@ == among(old(self)@, path::keys(list@)),
    {
        let ghost all = self@;
        let ghost keys = path::keys(list@);
        let mut i: usize = self.entries.len();
        let ghost mut tail: Seq<(P::Key, Texture)> = Seq::empty();
        assert(all.take(i as int) =~= all);
        while i > 0
            invariant
                i <= all.len(),
                i <= self.entries@.len(),
                keys == path::keys(list@),
                self@ =~= all.take(i as int) + tail,
                among(all, keys) =~= among(all.take(i as int), keys) + tail,
            decreases i,
        {
            i -= 1;
            assert(self@[i as int] == all[i as int]);
            assert(all.take(i + 1).drop_last() =~= all.take(i as int));
            let ghost before = self@;
            proof {
                path::lemma_first_position(keys, all[i as int].0);
            }
            if path::position_of(list, &self.entries[i].0).is_none() {
                let _ = self.entries.remove(i);
                assert(self@ =~= before.remove(i as int));
            } else {
                proof {
                    tail = seq![all[i as int]] + tail;
                }
            }
        }
    }

    /// Drops the textures of a photograph.
    pub fn forget(&mut self, p: &P)
        ensures
            final(self)@ == without(old(self)@, p.key()),
    {
        let ghost all = self@;
        let mut i: usize = self.entries.len();
        let ghost mut tail: Seq<(P::Key, Texture)> = Seq::empty();
        assert(all.take(i as int) =~= all);
        while i > 0
            invariant
                i <= all.len(),
                i <= self.entries@.len(),
                self@ =~= all.take(i as int) + tail,
                without(all, p.key()) =~= without(all.take(i as int), p.key()) + tail,
            decreases i,
        {
            i -= 1;
            assert(self@[i as int] == all[i as int]);
            assert(all.take(i + 1).drop_last() =~= all.take(i as int));
            let ghost before = self@;
            if self.entries[i].0.same(p) {
                let _ = self.entries.remove(i);
                assert(self@ =~= before.remove(i as int));
            } else {
                proof {
                    tail = seq![all[i as int]] + tail;
                }
            }
        }
    }

    /// Drops the oldest textures until at most `n` are left.
    pub fn trim(&mut self, n: usize)
        ensures
            final(self)@ == last_ones(old(self)@, n as int),
    {
        let ghost all = self@;
        while self.entries.len() > n
            invariant
                self@ =~= all.skip(all.len() - self@.len()),
                self@.len() <= all.len(),
                self@.len() >= n || self@.len() == all.len(),
            decreases self.entries@.len(),
        {
            let ghost before = self@;
            let _ = self.entries.remove(0);
            assert(self@ =~= before.remove(0));
        }
    }

    /// Makes the texture of a photograph the one used last. Only a few are kept.
    pub fn touch(&mut self, p: P, texture: Texture)
        ensures
            final(self)@ == used(old(self)@, p.key(), texture),
    {
        self.forget(&p);
        self.push(p, texture);
        self.trim(MAX_TEXTURES);
    }
}

proof fn lemma_without_keeps<K>(s: Seq<(K, Texture)>, k: K)
    requires
        !owners(s).contains(k),
    ensures
        without(s, k) == s,
    decreases s.len(),
{
    if s.len() > 0 {
        assert(owners(s)[s.len() - 1] == s.last().0);
        assert forall|x: K| owners(s.drop_last()).contains(x) implies owners(s).contains(x) by {
            let short = owners(s.drop_last());
            let i = choose|i: int| 0 <= i < short.len() && short[i] == x;
            assert(owners(s)[i] == x);
        }
        lemma_without_keeps(s.drop_last(), k);
        assert(without(s, k) =~= s);
    } else {
        assert(without(s, k) =~= s);
    }
}

/// Of the photographs that were shown, the textures of the last three are kept: a
/// fourth takes the place of the one that was shown longest ago.
pub proof fn law_the_last_three_keep_their_textures<K>(
    s: Seq<(K, Texture)>,
    k: K,
    texture: Texture,
)
    requires
        !owners(s).contains(k),
        s.len() <= 3,
    ensures
        s.len() < 3 ==> used(s, k, texture) == s.push((k, texture)),
        s.len() == 3 ==> used(s, k, texture) == seq![s[1], s[2], (k, texture)],
{
    lemma_without_keeps(s, k);
    if s.len() == 3 {
        assert(s.push((k, texture)).skip(1) =~= seq![s[1], s[2], (k, texture)]);
    }
}

/// Only the textures of photographs of a list are kept.
pub proof fn law_listed_photographs_keep_their_textures<K>(
    s: Seq<(K, Texture)>,
    list: Seq<K>,
    e: (K, Texture),
)
    ensures
        among(s, list).contains(e) <==> s.contains(e) && list.contains(e.0),
    decreases s.len(),
{
    if s.len() > 0 {
        let short = s.drop_last();
        law_listed_photographs_keep_their_textures(short, list, e);
        assert(s[s.len() - 1] == s.last());
        if short.contains(e) {
            let i = choose|i: int| 0 <= i < short.len() && short[i] == e;
            assert(s[i] == e);
        }
        if s.contains(e) && s.last() != e {
            let i = choose|i: int| 0 <= i < s.len() && s[i] == e;
            assert(short[i] == e);
        }
        if list.contains(s.last().0) {
            let before = among(short, list);
            let now = among(s, list);
            assert(now[before.len() as int] == s.last());
            if before.contains(e) {
                let i = choose|i: int| 0 <= i < before.len() && before[i] == e;
                assert(now[i] == e);
            }
            if now.contains(e) && s.last() != e {
                let i = choose|i: int| 0 <= i < now.len() && now[i] == e;
                assert(before[i] == e);
            }
        }
    }
}

} // verus!
