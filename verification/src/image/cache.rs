//! Memory accounting and the cache of decoded images.
use crate::path;
use crate::path::Identity;
use vstd::prelude::*;

verus! {

/// Shared accounting for JPEG and RGBA buffers, textures and staging uploads.
/// What is handed out never exceeds the limit.
#[derive(Debug)]
pub struct MemoryBudget {
    limit: usize,
    used: usize,
    epoch: u64,
}

/// What a `MemoryBudget` says.
pub struct Budget {
    pub limit: int,
    pub used: int,
    /// Counts releases and wake-ups.
    pub epoch: u64,
}

impl View for MemoryBudget {
    type V = Budget;

    closed spec fn view(&self) -> Budget {
        Budget { limit: self.limit as int, used: self.used as int, epoch: self.epoch }
    }
}

impl Budget {
    /// Bytes that can still be handed out.
    pub open spec fn available(self) -> int {
        self.limit - self.used
    }

    /// After `bytes` more were handed out.
    pub open spec fn charge(self, bytes: int) -> Budget {
        Budget { used: self.used + bytes, ..self }
    }

    /// After `bytes` came back.
    pub open spec fn refund(self, bytes: int) -> Budget {
        Budget {
            used: if bytes > self.used {
                0
            } else {
                self.used - bytes
            },
            epoch: self.epoch.wrapping_add(1),
            ..self
        }
    }
}

impl MemoryBudget {
    /// No more is used than may be.
    pub open spec fn bounded(&self) -> bool {
        0 <= self@.used <= self@.limit <= usize::MAX
    }

    #[verifier::type_invariant]
    spec fn inv(&self) -> bool {
        self.used <= self.limit
    }

    pub fn new(limit: usize) -> (out: Self)
        ensures
            out@ == (Budget { limit: limit as int, used: 0, epoch: 0 }),
            out.bounded(),
    {
        MemoryBudget { limit, used: 0, epoch: 0 }
    }

    pub fn limit(&self) -> (out: usize)
        ensures
            out == self@.limit,
    {
        self.limit
    }

    pub fn used(&self) -> (out: usize)
        ensures
            out == self@.used,
            self.bounded(),
    {
        proof {
            use_type_invariant(self);
        }
        self.used
    }

    pub fn available(&self) -> (out: usize)
        ensures
            out == self@.available(),
            self.bounded(),
    {
        proof {
            use_type_invariant(self);
        }
        self.limit - self.used
    }

    /// Hands out `bytes`, unless that would exceed the limit.
    pub fn try_reserve(&mut self, bytes: usize) -> (out: Option<MemoryLease>)
        ensures
            final(self).bounded(),
            match out {
                Some(lease) => bytes <= old(self)@.available() && lease@ == bytes && final(self)@
                    == old(self)@.charge(bytes as int),
                None => bytes > old(self)@.available() && final(self)@ == old(self)@,
            },
    {
        proof {
            use_type_invariant(&*self);
        }
        if bytes > self.limit - self.used {
            return None;
        }
        self.used = self.used + bytes;
        Some(MemoryLease { bytes })
    }

    pub fn epoch(&self) -> (out: u64)
        ensures
            out == self@.epoch,
    {
        self.epoch
    }

    /// Whether a waiter that saw `previous_epoch` may go on. A release between
    /// its failed reservation and this test is seen, so no wake-up is lost.
    pub fn wait_for_change(&self, previous_epoch: u64) -> (out: bool)
        ensures
            out == (self@.epoch != previous_epoch),
    {
        self.epoch != previous_epoch
    }

    /// Lets every waiter look again, without freeing anything.
    pub fn wake_waiters(&mut self)
        ensures
            final(self).bounded(),
            final(self)@ == (Budget { epoch: old(self)@.epoch.wrapping_add(1), ..old(self)@ }),
    {
        proof {
            use_type_invariant(&*self);
        }
        self.epoch = self.epoch.wrapping_add(1);
    }

    /// Takes back what a lease covers.
    pub fn release(&mut self, lease: MemoryLease)
        ensures
            final(self).bounded(),
            final(self)@ == old(self)@.refund(lease@),
    {
        proof {
            use_type_invariant(&*self);
        }
        self.refund(lease.bytes);
    }

    fn refund(&mut self, bytes: usize)
        ensures
            final(self).bounded(),
            final(self)@ == old(self)@.refund(bytes as int),
    {
        proof {
            use_type_invariant(&*self);
        }
        self.used = self.used.saturating_sub(bytes);
        self.epoch = self.epoch.wrapping_add(1);
    }
}

/// A reservation. It moves with the allocation that it covers and is never
/// copied.
#[derive(Debug)]
pub struct MemoryLease {
    bytes: usize,
}

impl View for MemoryLease {
    type V = int;

    closed spec fn view(&self) -> int {
        self.bytes as int
    }
}

impl MemoryLease {
    /// A lease covers a number of bytes that fits in memory.
    pub broadcast proof fn lemma_range(&self)
        ensures
            0 <= #[trigger] self@ <= usize::MAX,
    {
    }

    pub fn bytes(&self) -> (out: usize)
        ensures
            out == self@,
    {
        self.bytes
    }

    /// Parts with some of the bytes. What both leases cover stays the same.
    pub fn split_off(&mut self, bytes: usize) -> (out: Option<Self>)
        ensures
            match out {
                Some(lease) => bytes <= old(self)@ && lease@ == bytes && final(self)@ == old(self)@
                    - bytes,
                None => bytes > old(self)@ && final(self)@ == old(self)@,
            },
    {
        if bytes > self.bytes {
            return None;
        }
        self.bytes = self.bytes - bytes;
        Some(MemoryLease { bytes })
    }

    /// Covers another number of bytes, unless the budget has too few left.
    pub fn resize(&mut self, budget: &mut MemoryBudget, bytes: usize) -> (out: bool)
        ensures
            final(budget).bounded(),
            out == (bytes <= old(self)@ || bytes - old(self)@ <= old(budget)@.available()),
            out ==> final(self)@ == bytes,
            !out ==> final(self)@ == old(self)@ && final(budget)@ == old(budget)@,
            out && bytes <= old(self)@ ==> final(budget)@ == old(budget)@.refund(
                old(self)@ - bytes,
            ),
            out && bytes > old(self)@ ==> final(budget)@ == old(budget)@.charge(bytes - old(self)@),
    {
        if bytes <= self.bytes {
            budget.refund(self.bytes - bytes);
            self.bytes = bytes;
            return true;
        }
        match budget.try_reserve(bytes - self.bytes) {
            Some(extra) => {
                self.bytes = bytes;
                true
            },
            None => false,
        }
    }
}

/// A decoded preview. Its pixels are known by the number `id`.
#[derive(Debug)]
pub struct DecodedImage {
    pub id: u64,
    pub width: u32,
    pub height: u32,
    pub original_width: u32,
    pub original_height: u32,
    pub scale: u32,
    /// Covers the pixels.
    pub lease: MemoryLease,
}

impl DecodedImage {
    /// Bytes of memory that the pixels take.
    pub open spec fn size(&self) -> int {
        self.lease@
    }

    /// Covers an allocation of `allocated` bytes with a lease. A lease that
    /// cannot grow to it is given back.
    pub fn new(
        id: u64,
        allocated: usize,
        width: u32,
        height: u32,
        original_width: u32,
        original_height: u32,
        scale: u32,
        lease: MemoryLease,
        budget: &mut MemoryBudget,
    ) -> (out: Result<Self, String>)
        ensures
            final(budget).bounded(),
            match out {
                Ok(image) => {
                    &&& allocated <= lease@ || allocated - lease@ <= old(budget)@.available()
                    &&& image.size() == allocated
                    &&& image.id == id
                    &&& image.width == width
                    &&& image.height == height
                    &&& image.original_width == original_width
                    &&& image.original_height == original_height
                    &&& image.scale == scale
                    &&& allocated <= lease@ ==> final(budget)@ == old(budget)@.refund(
                        lease@ - allocated,
                    )
                    &&& allocated > lease@ ==> final(budget)@ == old(budget)@.charge(
                        allocated - lease@,
                    )
                },
                Err(error) => {
                    &&& allocated > lease@
                    &&& allocated - lease@ > old(budget)@.available()
                    &&& error@ == "decoded allocation exceeded reserved memory"@
                    &&& final(budget)@ == old(budget)@.refund(lease@)
                },
            },
    {
        let mut lease = lease;
        if !lease.resize(budget, allocated) {
            budget.release(lease);
            return Err("decoded allocation exceeded reserved memory".to_owned());
        }
        Ok(DecodedImage { id, width, height, original_width, original_height, scale, lease })
    }

    pub fn bytes(&self) -> (out: usize)
        ensures
            out == self.size(),
    {
        self.lease.bytes()
    }

    /// Gives back the memory of an image that nobody uses any more.
    fn free(self, budget: &mut MemoryBudget)
        ensures
            final(budget).bounded(),
            final(budget)@ == old(budget)@.refund(self.size()),
    {
        budget.release(self.lease);
    }
}

/// A cached image.
#[derive(Debug)]
pub struct Entry {
    /// Position of the photograph in the current list.
    pub index: usize,
    pub image: DecodedImage,
    /// Uses of the image outside the cache.
    pub holders: usize,
    /// When the image was last used.
    pub touched: u64,
    /// Decoded ahead of need, and not asked for yet.
    pub prefetched: bool,
}

/// An image that left the cache while it was in use.
#[derive(Debug)]
pub struct Detached {
    pub image: DecodedImage,
    pub holders: usize,
}

/// The decoded images at hand. An image is evicted only if nobody holds it; one
/// that is dropped while it is held keeps its memory until its last holder lets
/// go.
#[derive(Debug)]
pub struct DecodedCache {
    pub entries: Vec<Entry>,
    pub detached: Vec<Detached>,
    pub clock: u64,
}

/// Memory of some entries.
pub open spec fn entry_bytes(s: Seq<Entry>) -> int
    decreases s.len(),
{
    if s.len() == 0 {
        0
    } else {
        entry_bytes(s.drop_last()) + s.last().image.size()
    }
}

/// Memory of some detached images.
pub open spec fn detached_bytes(s: Seq<Detached>) -> int
    decreases s.len(),
{
    if s.len() == 0 {
        0
    } else {
        detached_bytes(s.drop_last()) + s.last().image.size()
    }
}

/// The entry at `i` belongs to the photograph at `index`.
pub open spec fn at(s: Seq<Entry>, index: usize, i: int) -> bool {
    0 <= i < s.len() && s[i].index == index
}

/// Some entry belongs to the photograph at `index`.
pub open spec fn cached(s: Seq<Entry>, index: usize) -> bool {
    exists|i: int| at(s, index, i)
}

/// A photograph has at most one entry.
pub open spec fn one_each(s: Seq<Entry>) -> bool {
    forall|i: int, j: int| 0 <= i < j < s.len() ==> (#[trigger] s[i]).index != (#[trigger] s[j]).index
}

pub proof fn lemma_entry_bytes(s: Seq<Entry>)
    ensures
        0 <= entry_bytes(s),
        forall|i: int| 0 <= i < s.len() ==> (#[trigger] s[i]).image.size() <= entry_bytes(s),
        forall|i: int|
            0 <= i < s.len() ==> entry_bytes(#[trigger] s.remove(i)) == entry_bytes(s)
                - s[i].image.size(),
    decreases s.len(),
{
    broadcast use MemoryLease::lemma_range;

    if s.len() > 0 {
        let init = s.drop_last();
        lemma_entry_bytes(init);
        assert forall|i: int| 0 <= i < s.len() implies (#[trigger] s[i]).image.size()
            <= entry_bytes(s) by {
            if i < s.len() - 1 {
                assert(s[i] == init[i]);
            }
        }
        assert forall|i: int| 0 <= i < s.len() implies entry_bytes(#[trigger] s.remove(i))
            == entry_bytes(s) - s[i].image.size() by {
            if i < s.len() - 1 {
                assert(s.remove(i).drop_last() =~= init.remove(i));
                assert(s.remove(i).last() == s.last());
                assert(init[i] == s[i]);
            } else {
                assert(s.remove(i) =~= init);
            }
        }
    }
}

pub proof fn lemma_detached_bytes(s: Seq<Detached>)
    ensures
        0 <= detached_bytes(s),
        forall|i: int| 0 <= i < s.len() ==> (#[trigger] s[i]).image.size() <= detached_bytes(s),
        forall|i: int|
            0 <= i < s.len() ==> detached_bytes(#[trigger] s.remove(i)) == detached_bytes(s)
                - s[i].image.size(),
    decreases s.len(),
{
    broadcast use MemoryLease::lemma_range;

    if s.len() > 0 {
        let init = s.drop_last();
        lemma_detached_bytes(init);
        assert forall|i: int| 0 <= i < s.len() implies (#[trigger] s[i]).image.size()
            <= detached_bytes(s) by {
            if i < s.len() - 1 {
                assert(s[i] == init[i]);
            }
        }
        assert forall|i: int| 0 <= i < s.len() implies detached_bytes(#[trigger] s.remove(i))
            == detached_bytes(s) - s[i].image.size() by {
            if i < s.len() - 1 {
                assert(s.remove(i).drop_last() =~= init.remove(i));
                assert(s.remove(i).last() == s.last());
                assert(init[i] == s[i]);
            } else {
                assert(s.remove(i) =~= init);
            }
        }
    }
}

/// The cache and the budget that it draws on.
pub struct Stock {
    pub entries: Seq<Entry>,
    pub detached: Seq<Detached>,
    pub budget: Budget,
}

impl Stock {
    /// Memory that the images take.
    pub open spec fn images(self) -> int {
        entry_bytes(self.entries) + detached_bytes(self.detached)
    }

    /// Every image is covered by the budget, and no photograph is cached twice.
    pub open spec fn sound(self) -> bool {
        &&& one_each(self.entries)
        &&& self.images() <= self.budget.used <= self.budget.limit <= usize::MAX
        &&& forall|i: int|
            0 <= i < self.detached.len() ==> (#[trigger] self.detached[i]).holders > 0
    }

    /// Memory of the budget that is not in images.
    pub open spec fn elsewhere(self) -> int {
        self.budget.used - self.images()
    }

    /// Without the entry at `i`. Its memory comes back unless it is held.
    pub open spec fn without(self, i: int) -> Stock {
        let e = self.entries[i];
        if e.holders > 0 {
            Stock {
                entries: self.entries.remove(i),
                detached: self.detached.push(Detached { image: e.image, holders: e.holders }),
                ..self
            }
        } else {
            Stock {
                entries: self.entries.remove(i),
                budget: self.budget.refund(e.image.size()),
                ..self
            }
        }
    }

    /// Taking an entry out keeps the accounts right.
    pub proof fn lemma_without(self, i: int)
        requires
            self.sound(),
            0 <= i < self.entries.len(),
        ensures
            self.without(i).sound(),
            self.without(i).elsewhere() == self.elsewhere(),
            self.without(i).entries.len() == self.entries.len() - 1,
            self.budget.used >= self.without(i).budget.used,
            self.entries[i].holders == 0 ==> self.without(i).budget.used == self.budget.used
                - self.entries[i].image.size(),
    {
        broadcast use MemoryLease::lemma_range;

        lemma_entry_bytes(self.entries);
        lemma_detached_bytes(self.detached);
        let e = self.entries[i];
        assert(entry_bytes(self.entries.remove(i)) == entry_bytes(self.entries) - e.image.size());
        let d = Detached { image: e.image, holders: e.holders };
        assert(self.detached.push(d).drop_last() =~= self.detached);
        let rest = self.without(i).entries;
        assert forall|j: int, k: int| 0 <= j < k < rest.len() implies (#[trigger] rest[j]).index
            != (#[trigger] rest[k]).index by {
            let a = if j < i {
                j
            } else {
                j + 1
            };
            let b = if k < i {
                k
            } else {
                k + 1
            };
            assert(self.entries[a].index != self.entries[b].index);
        }
    }

    /// An image that may be evicted: not held, and not the one to keep.
    pub open spec fn free(self, keep: Option<usize>, i: int) -> bool {
        &&& 0 <= i < self.entries.len()
        &&& self.entries[i].holders == 0
        &&& keep != Some(self.entries[i].index)
    }

    /// The entry to evict: the one that was used longest ago.
    pub open spec fn oldest(self, keep: Option<usize>, i: int) -> bool {
        &&& self.free(keep, i)
        &&& forall|j: int| #[trigger]
            self.free(keep, j) ==> self.entries[i].touched <= self.entries[j].touched && (j < i
                ==> self.entries[i].touched < self.entries[j].touched)
    }

    /// The entry to evict, if one may be.
    pub open spec fn victim(self, keep: Option<usize>) -> Option<int> {
        if exists|i: int| self.oldest(keep, i) {
            Some(choose|i: int| self.oldest(keep, i))
        } else {
            None
        }
    }

    pub proof fn lemma_victim(self, keep: Option<usize>)
        ensures
            forall|i: int| #[trigger] self.oldest(keep, i) ==> self.victim(keep) == Some(i),
            self.victim(keep) is Some ==> self.oldest(keep, self.victim(keep)->0),
            (forall|i: int| !self.free(keep, i)) ==> self.victim(keep) is None,
    {
        if exists|i: int| self.oldest(keep, i) {
            let c = choose|i: int| self.oldest(keep, i);
            assert forall|i: int| #[trigger] self.oldest(keep, i) implies i == c by {
                assert(self.free(keep, i) && self.free(keep, c));
            }
        }
    }

    /// Eviction until `bytes` are freed, after `freed` were. An image without
    /// memory ends it.
    pub open spec fn evicted(self, keep: Option<usize>, bytes: int, freed: int) -> (Stock, int)
        decreases self.entries.len(),
    {
        match self.victim(keep) {
            Some(i) => if freed < bytes && 0 <= i < self.entries.len() {
                let size = self.entries[i].image.size();
                if size == 0 {
                    (self.without(i), freed)
                } else {
                    self.without(i).evicted(keep, bytes, freed + size)
                }
            } else {
                (self, freed)
            },
            None => (self, freed),
        }
    }

    /// Eviction until `bytes` are available, and whether they are.
    pub open spec fn evicted_for(self, keep: Option<usize>, bytes: int) -> (Stock, bool)
        decreases self.entries.len(),
    {
        if self.budget.available() >= bytes {
            (self, true)
        } else {
            match self.victim(keep) {
                Some(i) => if 0 <= i < self.entries.len() {
                    if self.entries[i].image.size() == 0 {
                        (self.without(i), false)
                    } else {
                        self.without(i).evicted_for(keep, bytes)
                    }
                } else {
                    (self, false)
                },
                None => (self, false),
            }
        }
    }

    /// Eviction until the entries take at most `bytes`.
    pub open spec fn trimmed(self, keep: Option<usize>, bytes: int) -> Stock
        decreases self.entries.len(),
    {
        match self.victim(keep) {
            Some(i) => if entry_bytes(self.entries) > bytes && 0 <= i < self.entries.len() {
                if self.entries[i].image.size() == 0 {
                    self.without(i)
                } else {
                    self.without(i).trimmed(keep, bytes)
                }
            } else {
                self
            },
            None => self,
        }
    }
}

/// Taking out one entry leaves the other photographs as they were.
proof fn lemma_cached_without(s: Seq<Entry>, i: int, other: usize)
    requires
        0 <= i < s.len(),
        s[i].index != other,
    ensures
        cached(s.remove(i), other) == cached(s, other),
{
    let rest = s.remove(i);
    if cached(s, other) {
        let k = choose|k: int| at(s, other, k);
        assert(at(rest, other, if k < i {
            k
        } else {
            k - 1
        }));
    }
    if cached(rest, other) {
        let k = choose|k: int| at(rest, other, k);
        assert(at(s, other, if k < i {
            k
        } else {
            k + 1
        }));
    }
}

impl DecodedCache {
    /// The cache together with its budget.
    pub open spec fn stock(&self, budget: Budget) -> Stock {
        Stock { entries: self.entries@, detached: self.detached@, budget }
    }

    /// Whether the budget covers the cache.
    pub open spec fn sound(&self, budget: &MemoryBudget) -> bool {
        self.stock(budget@).sound()
    }

    pub fn new() -> (out: Self)
        ensures
            out.entries@.len() == 0,
            out.detached@.len() == 0,
            out.clock == 0,
    {
        DecodedCache { entries: Vec::new(), detached: Vec::new(), clock: 0 }
    }

    /// The position of an entry.
    fn find(&self, index: usize) -> (out: Option<usize>)
        ensures
            match out {
                Some(i) => at(self.entries@, index, i as int),
                None => !cached(self.entries@, index),
            },
    {
        let mut i: usize = 0;
        while i < self.entries.len()
            invariant
                i <= self.entries@.len(),
                forall|k: int| 0 <= k < i ==> !at(self.entries@, index, k),
            decreases self.entries@.len() - i,
        {
            if self.entries[i].index == index {
                return Some(i);
            }
            i += 1;
        }
        assert forall|k: int| !at(self.entries@, index, k) by {}
        None
    }

    pub fn contains(&self, index: usize) -> (out: bool)
        ensures
            out == cached(self.entries@, index),
    {
        match self.find(index) {
            Some(i) => {
                assert(at(self.entries@, index, i as int));
                true
            },
            None => false,
        }
    }

    /// Memory of the cached images.
    pub fn bytes(&self) -> (out: usize)
        requires
            entry_bytes(self.entries@) <= usize::MAX,
        ensures
            out == entry_bytes(self.entries@),
    {
        let mut total: usize = 0;
        let mut i: usize = 0;
        assert(self.entries@.take(0) =~= Seq::<Entry>::empty());
        while i < self.entries.len()
            invariant
                i <= self.entries@.len(),
                entry_bytes(self.entries@) <= usize::MAX,
                total == entry_bytes(self.entries@.take(i as int)),
            decreases self.entries@.len() - i,
        {
            proof {
                lemma_take_bytes(self.entries@, i + 1);
                assert(self.entries@.take(i + 1).drop_last() =~= self.entries@.take(i as int));
            }
            total = total + self.entries[i].image.bytes();
            i += 1;
        }
        assert(self.entries@.take(i as int) =~= self.entries@);
        total
    }

    /// Takes the entry at position `i` out.
    fn take_out(&mut self, i: usize, budget: &mut MemoryBudget)
        requires
            i < old(self).entries@.len(),
            old(self).sound(old(budget)),
        ensures
            final(self).sound(final(budget)),
            final(self).clock == old(self).clock,
            final(self).stock(final(budget)@) == old(self).stock(old(budget)@).without(i as int),
    {
        proof {
            old(self).stock(old(budget)@).lemma_without(i as int);
        }
        let entry = self.entries.remove(i);
        if entry.holders > 0 {
            self.detached.push(Detached { image: entry.image, holders: entry.holders });
        } else {
            entry.image.free(budget);
        }
    }
}

proof fn lemma_take_bytes(s: Seq<Entry>, n: int)
    requires
        0 <= n <= s.len(),
    ensures
        0 <= entry_bytes(s.take(n)) <= entry_bytes(s),
    decreases s.len() - n,
{
    broadcast use MemoryLease::lemma_range;

    lemma_entry_bytes(s.take(n));
    if n < s.len() {
        lemma_take_bytes(s, n + 1);
        assert(s.take(n + 1).drop_last() =~= s.take(n));
    } else {
        assert(s.take(n) =~= s);
    }
}

impl DecodedCache {
    /// Evicts the image that was used longest ago, and returns its memory.
    fn evict_one(&mut self, keep: Option<usize>, budget: &mut MemoryBudget) -> (out: usize)
        requires
            old(self).sound(old(budget)),
        ensures
            final(self).sound(final(budget)),
            final(self).clock == old(self).clock,
            final(self).stock(final(budget)@).elsewhere() == old(self).stock(
                old(budget)@,
            ).elsewhere(),
            match old(self).stock(old(budget)@).victim(keep) {
                Some(i) => {
                    &&& 0 <= i < old(self).entries@.len()
                    &&& out == old(self).entries@[i].image.size()
                    &&& final(self).stock(final(budget)@) == old(self).stock(
                        old(budget)@,
                    ).without(i)
                },
                None => out == 0 && final(self).stock(final(budget)@) == old(self).stock(
                    old(budget)@,
                ),
            },
    {
        let ghost stock = self.stock(budget@);
        let mut best: Option<usize> = None;
        let mut i: usize = 0;
        while i < self.entries.len()
            invariant
                i <= self.entries@.len(),
                stock == self.stock(budget@),
                match best {
                    Some(b) => {
                        &&& b < i
                        &&& stock.free(keep, b as int)
                        &&& forall|j: int| #[trigger]
                            stock.free(keep, j) && j < i ==> stock.entries[b as int].touched
                                <= stock.entries[j].touched && (j < b ==> stock.entries[b as int].touched
                                < stock.entries[j].touched)
                    },
                    None => forall|j: int| j < i ==> !#[trigger] stock.free(keep, j),
                },
            decreases self.entries@.len() - i,
        {
            let entry = &self.entries[i];
            let kept = match keep {
                Some(index) => index == entry.index,
                None => false,
            };
            if !kept && entry.holders == 0 {
                let better = match best {
                    Some(b) => entry.touched < self.entries[b].touched,
                    None => true,
                };
                if better {
                    best = Some(i);
                }
            }
            i += 1;
        }
        proof {
            stock.lemma_victim(keep);
        }
        match best {
            Some(b) => {
                assert(stock.oldest(keep, b as int));
                proof {
                    stock.lemma_without(b as int);
                }
                let size: usize = self.entries[b].image.bytes();
                self.take_out(b, budget);
                size
            },
            None => 0,
        }
    }

    /// Evicts until `bytes` are freed, and returns what was freed.
    pub fn evict_bytes(
        &mut self,
        bytes: usize,
        keep: Option<usize>,
        budget: &mut MemoryBudget,
    ) -> (out: usize)
        requires
            old(self).sound(old(budget)),
        ensures
            final(self).sound(final(budget)),
            final(self).clock == old(self).clock,
            final(self).stock(final(budget)@).elsewhere() == old(self).stock(
                old(budget)@,
            ).elsewhere(),
            old(self).stock(old(budget)@).evicted(keep, bytes as int, 0) == (
                final(self).stock(final(budget)@),
                out as int,
            ),
    {
        let ghost want = self.stock(budget@).evicted(keep, bytes as int, 0);
        let mut freed: usize = 0;
        loop
            invariant_except_break
                want == self.stock(budget@).evicted(keep, bytes as int, freed as int),
            invariant
                self.sound(budget),
                self.stock(budget@).elsewhere() == old(self).stock(old(budget)@).elsewhere(),
                self.clock == old(self).clock,
                freed + budget@.used <= usize::MAX,
            ensures
                want == (self.stock(budget@), freed as int),
            decreases self.entries@.len(),
        {
            let ghost stock = self.stock(budget@);
            if freed >= bytes {
                break;
            }
            proof {
                stock.lemma_victim(keep);
                if stock.victim(keep) is Some {
                    stock.lemma_without(stock.victim(keep)->0);
                }
            }
            let released: usize = self.evict_one(keep, budget);
            if released == 0 {
                break;
            }
            freed = freed + released;
        }
        freed
    }

    /// Evicts until the budget has `bytes` left. Says whether it has.
    pub fn evict_for(
        &mut self,
        bytes: usize,
        keep: Option<usize>,
        budget: &mut MemoryBudget,
    ) -> (out: bool)
        requires
            old(self).sound(old(budget)),
        ensures
            final(self).sound(final(budget)),
            final(self).clock == old(self).clock,
            final(self).stock(final(budget)@).elsewhere() == old(self).stock(
                old(budget)@,
            ).elsewhere(),
            old(self).stock(old(budget)@).evicted_for(keep, bytes as int) == (
                final(self).stock(final(budget)@),
                out,
            ),
            out == (bytes <= final(budget)@.available()),
    {
        let ghost want = self.stock(budget@).evicted_for(keep, bytes as int);
        while budget.available() < bytes
            invariant
                self.sound(budget),
                self.stock(budget@).elsewhere() == old(self).stock(old(budget)@).elsewhere(),
                self.clock == old(self).clock,
                want == old(self).stock(old(budget)@).evicted_for(keep, bytes as int),
                want == self.stock(budget@).evicted_for(keep, bytes as int),
            decreases self.entries@.len(),
        {
            let ghost stock = self.stock(budget@);
            proof {
                stock.lemma_victim(keep);
                if stock.victim(keep) is Some {
                    stock.lemma_without(stock.victim(keep)->0);
                }
            }
            if self.evict_one(keep, budget) == 0 {
                return false;
            }
        }
        true
    }

    /// Evicts everything that may be evicted.
    pub fn evict_all_except(&mut self, keep: Option<usize>, budget: &mut MemoryBudget) -> (out:
        usize)
        requires
            old(self).sound(old(budget)),
        ensures
            final(self).sound(final(budget)),
            final(self).clock == old(self).clock,
            final(self).stock(final(budget)@).elsewhere() == old(self).stock(
                old(budget)@,
            ).elsewhere(),
            old(self).stock(old(budget)@).evicted(keep, usize::MAX as int, 0) == (
                final(self).stock(final(budget)@),
                out as int,
            ),
    {
        self.evict_bytes(usize::MAX, keep, budget)
    }

    /// Evicts until the cached images take at most `bytes`.
    pub fn trim_to(&mut self, bytes: usize, keep: Option<usize>, budget: &mut MemoryBudget)
        requires
            old(self).sound(old(budget)),
        ensures
            final(self).sound(final(budget)),
            final(self).clock == old(self).clock,
            final(self).stock(final(budget)@).elsewhere() == old(self).stock(
                old(budget)@,
            ).elsewhere(),
            final(self).stock(final(budget)@) == old(self).stock(old(budget)@).trimmed(
                keep,
                bytes as int,
            ),
    {
        let ghost want = self.stock(budget@).trimmed(keep, bytes as int);
        loop
            invariant_except_break
                want == self.stock(budget@).trimmed(keep, bytes as int),
            invariant
                self.sound(budget),
                self.stock(budget@).elsewhere() == old(self).stock(old(budget)@).elsewhere(),
                self.clock == old(self).clock,
            ensures
                want == self.stock(budget@),
            decreases self.entries@.len(),
        {
            let ghost stock = self.stock(budget@);
            proof {
                lemma_detached_bytes(self.detached@);
                stock.lemma_victim(keep);
                if stock.victim(keep) is Some {
                    stock.lemma_without(stock.victim(keep)->0);
                }
            }
            if self.bytes() <= bytes {
                break;
            }
            if self.evict_one(keep, budget) == 0 {
                break;
            }
        }
    }
}

impl Stock {
    /// Without those of the first `n` entries that are not to be kept.
    pub open spec fn culled(self, keep: Seq<bool>, n: int) -> Stock
        decreases n,
    {
        if n <= 0 {
            self
        } else if keep[n - 1] {
            self.culled(keep, n - 1)
        } else {
            self.without(n - 1).culled(keep, n - 1)
        }
    }

    /// Which entries belong to one of some photographs.
    pub open spec fn among(self, indices: Seq<usize>) -> Seq<bool> {
        Seq::new(self.entries.len(), |i: int| indices.contains(self.entries[i].index))
    }
}

pub(crate) fn lists(indices: &Vec<usize>, index: usize) -> (out: bool)
    ensures
        out == indices@.contains(index),
{
    let mut i: usize = 0;
    while i < indices.len()
        invariant
            i <= indices@.len(),
            forall|k: int| 0 <= k < i ==> indices@[k] != index,
        decreases indices@.len() - i,
    {
        if indices[i] == index {
            assert(indices@[i as int] == index);
            return true;
        }
        i += 1;
    }
    false
}

impl DecodedCache {
    /// Takes out every entry that is not to be kept.
    fn cull(&mut self, keep: &Vec<bool>, budget: &mut MemoryBudget)
        requires
            old(self).sound(old(budget)),
            keep@.len() == old(self).entries@.len(),
        ensures
            final(self).sound(final(budget)),
            final(self).clock == old(self).clock,
            final(self).stock(final(budget)@) == old(self).stock(old(budget)@).culled(
                keep@,
                keep@.len() as int,
            ),
            final(self).stock(final(budget)@).elsewhere() == old(self).stock(
                old(budget)@,
            ).elsewhere(),
            // What stays is what was to be kept, in the old order.
            exists|from: Seq<int>| kept_from(old(self).entries@, keep@, final(self).entries@, from),
    {
        let ghost begun = self.stock(budget@);
        let ghost mut from = Seq::new(self.entries@.len(), |i: int| i);
        let mut n: usize = self.entries.len();
        while n > 0
            invariant
                self.sound(budget),
                self.clock == old(self).clock,
                n <= self.entries@.len(),
                n <= keep@.len(),
                keep@.len() == begun.entries.len(),
                begun == old(self).stock(old(budget)@),
                self.stock(budget@).elsewhere() == begun.elsewhere(),
                begun.culled(keep@, keep@.len() as int) == self.stock(budget@).culled(
                    keep@,
                    n as int,
                ),
                from.len() == self.entries@.len(),
                forall|i: int| 0 <= i < n ==> #[trigger] from[i] == i,
                forall|i: int|
                    #![trigger from[i]]
                    0 <= i < from.len() ==> 0 <= from[i] < begun.entries.len()
                        && self.entries@[i] == begun.entries[from[i]] && (i >= n ==> keep@[from[i]]),
                forall|i: int, j: int| 0 <= i < j < from.len() ==> #[trigger] from[i] < #[trigger] from[j],
                forall|k: int|
                    n <= k < keep@.len() && #[trigger] keep@[k] ==> from.contains(k),
            decreases n,
        {
            n -= 1;
            if !keep[n] {
                proof {
                    self.stock(budget@).lemma_without(n as int);
                }
                let ghost last = from;
                self.take_out(n, budget);
                proof {
                    from = last.remove(n as int);
                    assert forall|k: int| n <= k < keep@.len() && #[trigger] keep@[k] implies from.contains(
                        k,
                    ) by {
                        let i = choose|i: int| 0 <= i < last.len() && last[i] == k;
                        assert(i != n);
                        assert(from[if i < n {
                            i
                        } else {
                            i - 1
                        }] == k);
                    }
                }
            } else {
                assert(from[n as int] == n);
            }
        }
        assert(kept_from(old(self).entries@, keep@, self.entries@, from));
    }

    /// Keeps the images of some photographs only.
    pub fn retain_indices(&mut self, indices: &Vec<usize>, budget: &mut MemoryBudget)
        requires
            old(self).sound(old(budget)),
        ensures
            final(self).sound(final(budget)),
            final(self).clock == old(self).clock,
            final(self).stock(final(budget)@).elsewhere() == old(self).stock(
                old(budget)@,
            ).elsewhere(),
            ({
                let stock = old(self).stock(old(budget)@);
                final(self).stock(final(budget)@) == stock.culled(
                    stock.among(indices@),
                    stock.entries.len() as int,
                )
            }),
            forall|index: usize| #[trigger]
                cached(final(self).entries@, index) <==> cached(old(self).entries@, index)
                    && indices@.contains(index),
    {
        let ghost begun = self.entries@;
        let mut keep: Vec<bool> = Vec::new();
        let mut i: usize = 0;
        while i < self.entries.len()
            invariant
                i <= self.entries@.len(),
                keep@.len() == i,
                forall|k: int|
                    0 <= k < i ==> #[trigger] keep@[k] == indices@.contains(self.entries@[k].index),
            decreases self.entries@.len() - i,
        {
            keep.push(lists(indices, self.entries[i].index));
            i += 1;
        }
        assert(keep@ =~= self.stock(budget@).among(indices@));
        self.cull(&keep, budget);
        proof {
            let from = choose|from: Seq<int>| kept_from(begun, keep@, self.entries@, from);
            assert forall|index: usize| #[trigger] cached(self.entries@, index) <==> cached(
                begun,
                index,
            ) && indices@.contains(index) by {
                if cached(self.entries@, index) {
                    let j = choose|j: int| at(self.entries@, index, j);
                    assert(at(begun, index, from[j]));
                }
                if cached(begun, index) && indices@.contains(index) {
                    let k = choose|k: int| at(begun, index, k);
                    assert(keep@[k]);
                    assert(from.contains(k));
                    let j = choose|j: int| 0 <= j < from.len() && from[j] == k;
                    assert(at(self.entries@, index, j));
                }
            }
        }
    }

    /// Forgets every image.
    pub fn clear(&mut self, budget: &mut MemoryBudget)
        requires
            old(self).sound(old(budget)),
        ensures
            final(self).sound(final(budget)),
            final(self).clock == old(self).clock,
            final(self).entries@.len() == 0,
            final(self).stock(final(budget)@).elsewhere() == old(self).stock(
                old(budget)@,
            ).elsewhere(),
            ({
                let stock = old(self).stock(old(budget)@);
                final(self).stock(final(budget)@) == stock.culled(
                    stock.among(Seq::empty()),
                    stock.entries.len() as int,
                )
            }),
    {
        let none: Vec<usize> = Vec::new();
        assert(none@ =~= Seq::<usize>::empty());
        self.retain_indices(&none, budget);
        proof {
            if self.entries@.len() > 0 {
                let index = self.entries@[0].index;
                assert(at(self.entries@, index, 0));
                assert(cached(self.entries@, index));
            }
        }
    }

    /// Forgets the image of one photograph.
    pub fn remove(&mut self, index: usize, budget: &mut MemoryBudget)
        requires
            old(self).sound(old(budget)),
        ensures
            final(self).sound(final(budget)),
            final(self).clock == old(self).clock,
            !cached(final(self).entries@, index),
            final(self).stock(final(budget)@).elsewhere() == old(self).stock(
                old(budget)@,
            ).elsewhere(),
            forall|i: int|
                at(old(self).entries@, index, i) ==> final(self).stock(final(budget)@) == old(self).stock(old(budget)@).without(i),
            !cached(old(self).entries@, index) ==> final(self).stock(final(budget)@) == old(self).stock(old(budget)@),
            forall|other: usize| #[trigger]
                cached(final(self).entries@, other) <==> cached(old(self).entries@, other) && other
                    != index,
    {
        match self.find(index) {
            Some(i) => {
                proof {
                    self.stock(budget@).lemma_without(i as int);
                }
                assert(at(self.entries@, index, i as int));
                self.take_out(i, budget);
                proof {
                    let rest = self.entries@;
                    assert forall|other: usize| other != index implies #[trigger] cached(
                        rest,
                        other,
                    ) == cached(old(self).entries@, other) by {
                        lemma_cached_without(old(self).entries@, i as int, other);
                    }
                    if cached(rest, index) {
                        let j = choose|j: int| at(rest, index, j);
                        let k = if j < i {
                            j
                        } else {
                            j + 1
                        };
                        assert(old(self).entries@[k].index == index);
                    }
                }
            },
            None => {},
        }
    }

    /// The image of a photograph, marked as just used. The caller holds it until
    /// it calls `let_go`.
    pub fn get(&mut self, index: usize) -> (out: Option<u64>)
        requires
            one_each(old(self).entries@),
            forall|i: int|
                at(old(self).entries@, index, i) ==> old(self).entries@[i].holders < usize::MAX,
        ensures
            final(self).clock == later(old(self).clock),
            final(self).detached@ == old(self).detached@,
            !cached(old(self).entries@, index) ==> out is None && final(self).entries@ == old(self).entries@,
            forall|i: int|
                at(old(self).entries@, index, i) ==> {
                    let e = old(self).entries@[i];
                    &&& out == Some(e.image.id)
                    &&& final(self).entries@ == old(self).entries@.update(
                        i,
                        Entry {
                            holders: (e.holders + 1) as usize,
                            touched: final(self).clock,
                            ..e
                        },
                    )
                },
            Call::Get(index, final(self).clock).leads(old(self).entries@, final(self).entries@),
    {
        self.clock = self.clock.saturating_add(1);
        match self.find(index) {
            Some(i) => {
                assert(at(self.entries@, index, i as int));
                let clock: u64 = self.clock;
                let entry = &mut self.entries[i];
                entry.holders = entry.holders + 1;
                entry.touched = clock;
                Some(entry.image.id)
            },
            None => None,
        }
    }

    /// Whether the image of a photograph was decoded ahead of need. Asking
    /// clears the mark.
    pub fn take_prefetched(&mut self, index: usize) -> (out: bool)
        requires
            one_each(old(self).entries@),
        ensures
            final(self).clock == old(self).clock,
            final(self).detached@ == old(self).detached@,
            !cached(old(self).entries@, index) ==> !out && final(self).entries@ == old(self).entries@,
            forall|i: int|
                at(old(self).entries@, index, i) ==> {
                    let e = old(self).entries@[i];
                    &&& out == e.prefetched
                    &&& final(self).entries@ == old(self).entries@.update(
                        i,
                        Entry { prefetched: false, ..e },
                    )
                },
            Call::Take(index, out).leads(old(self).entries@, final(self).entries@),
    {
        match self.find(index) {
            Some(i) => {
                assert(at(self.entries@, index, i as int));
                let entry = &mut self.entries[i];
                let prefetched = entry.prefetched;
                entry.prefetched = false;
                prefetched
            },
            None => false,
        }
    }

    /// Caches an image, in place of any other of the same photograph.
    pub fn insert(
        &mut self,
        index: usize,
        image: DecodedImage,
        prefetched: bool,
        budget: &mut MemoryBudget,
    )
        requires
            old(self).sound(old(budget)),
            image.size() <= old(self).stock(old(budget)@).elsewhere(),
        ensures
            final(self).sound(final(budget)),
            final(self).clock == later(old(self).clock),
            final(self).stock(final(budget)@).elsewhere() == old(self).stock(
                old(budget)@,
            ).elsewhere() - image.size(),
            ({
                let stock = old(self).stock(old(budget)@);
                let entry = Entry {
                    index,
                    image,
                    holders: 0,
                    touched: final(self).clock,
                    prefetched,
                };
                &&& forall|i: int|
                    at(stock.entries, index, i) ==> final(self).stock(final(budget)@) == (Stock {
                        entries: stock.without(i).entries.push(entry),
                        ..stock.without(i)
                    })
                &&& !cached(stock.entries, index) ==> final(self).stock(final(budget)@) == (Stock {
                    entries: stock.entries.push(entry),
                    ..stock
                })
                &&& Call::Insert(entry).leads(old(self).entries@, final(self).entries@)
            }),
    {
        self.clock = self.clock.saturating_add(1);
        self.remove(index, budget);
        let ghost rest = self.entries@;
        let ghost size = image.size();
        let touched: u64 = self.clock;
        self.entries.push(Entry { index, image, holders: 0, touched, prefetched });
        proof {
            assert(self.entries@.drop_last() =~= rest);
            assert forall|i: int, j: int| 0 <= i < j < self.entries@.len() implies (
            #[trigger] self.entries@[i]).index != (#[trigger] self.entries@[j]).index by {
                if j == rest.len() {
                    assert(!at(rest, index, i));
                }
            }
        }
    }
}

/// The next tick of the cache's clock, which stops at its end.
pub open spec fn later(clock: u64) -> u64 {
    if clock == u64::MAX {
        clock
    } else {
        (clock + 1) as u64
    }
}

/// `rest` holds the entries of `all` to be kept, those at the positions `from`,
/// in order.
pub open spec fn kept_from(all: Seq<Entry>, keep: Seq<bool>, rest: Seq<Entry>, from: Seq<int>) -> bool {
    &&& from.len() == rest.len()
    &&& forall|i: int|
        #![trigger from[i]]
        0 <= i < from.len() ==> 0 <= from[i] < all.len() && rest[i] == all[from[i]]
            && keep[from[i]]
    &&& forall|i: int, j: int| 0 <= i < j < from.len() ==> #[trigger] from[i] < #[trigger] from[j]
    &&& forall|k: int| 0 <= k < all.len() && #[trigger] keep[k] ==> from.contains(k)
}

/// How early a photograph is wanted. One that is not wanted comes last.
pub open spec fn rank(priorities: Seq<usize>, index: usize) -> int {
    match path::first_position(priorities, index) {
        Some(i) => i,
        None => usize::MAX as int,
    }
}

fn rank_of(priorities: &Vec<usize>, index: usize) -> (out: Option<usize>)
    ensures
        match path::first_position(priorities@, index) {
            Some(i) => out is Some && out->0 == i && 0 <= i < priorities@.len(),
            None => out is None,
        },
{
    let mut i: usize = 0;
    proof {
        path::lemma_first_position(priorities@, index);
    }
    while i < priorities.len()
        invariant
            i <= priorities@.len(),
            forall|k: int| 0 <= k < i ==> priorities@[k] != index,
        decreases priorities@.len() - i,
    {
        if priorities[i] == index {
            proof {
                path::lemma_first_position(priorities@, index);
                assert(path::is_first(priorities@, index, i as int));
            }
            return Some(i);
        }
        i += 1;
    }
    proof {
        path::lemma_first_position(priorities@, index);
    }
    None
}

impl Stock {
    /// An entry that nobody holds and that is wanted later than `than`.
    pub open spec fn less_wanted(self, priorities: Seq<usize>, than: int, i: int) -> bool {
        &&& 0 <= i < self.entries.len()
        &&& self.entries[i].holders == 0
        &&& rank(priorities, self.entries[i].index) > than
    }

    /// The least wanted of these.
    pub open spec fn least_wanted(self, priorities: Seq<usize>, than: int, i: int) -> bool {
        &&& self.less_wanted(priorities, than, i)
        &&& forall|j: int| #[trigger]
            self.less_wanted(priorities, than, j) ==> {
                &&& rank(priorities, self.entries[j].index) <= rank(
                    priorities,
                    self.entries[i].index,
                )
                &&& j > i ==> rank(priorities, self.entries[j].index) < rank(
                    priorities,
                    self.entries[i].index,
                )
            }
    }

    /// The entry that gives way to a decode of `candidate`, if one does.
    pub open spec fn yielding(self, priorities: Seq<usize>, candidate: usize) -> Option<int> {
        match path::first_position(priorities, candidate) {
            None => None,
            Some(than) => if exists|i: int| self.least_wanted(priorities, than, i) {
                Some(choose|i: int| self.least_wanted(priorities, than, i))
            } else {
                None
            },
        }
    }

    pub proof fn lemma_yielding(self, priorities: Seq<usize>, candidate: usize)
        ensures
            ({
                let than = path::first_position(priorities, candidate);
                &&& than is None ==> self.yielding(priorities, candidate) is None
                &&& than is Some ==> {
                    &&& forall|i: int| #[trigger]
                        self.least_wanted(priorities, than->0, i) ==> self.yielding(
                            priorities,
                            candidate,
                        ) == Some(i)
                    &&& self.yielding(priorities, candidate) is Some ==> self.least_wanted(
                        priorities,
                        than->0,
                        self.yielding(priorities, candidate)->0,
                    )
                    &&& (forall|i: int| !self.less_wanted(priorities, than->0, i))
                        ==> self.yielding(priorities, candidate) is None
                }
            }),
    {
        if let Some(than) = path::first_position(priorities, candidate) {
            if exists|i: int| self.least_wanted(priorities, than, i) {
                let c = choose|i: int| self.least_wanted(priorities, than, i);
                assert forall|i: int| #[trigger] self.least_wanted(priorities, than, i) implies i
                    == c by {
                    assert(self.less_wanted(priorities, than, i) && self.less_wanted(
                        priorities,
                        than,
                        c,
                    ));
                }
            }
        }
    }
}

impl DecodedCache {
    /// A nearer neighbour may replace a less useful one. A distant speculative
    /// request never evicts an image that is wanted earlier. Returns the memory
    /// that was freed.
    pub fn evict_lower_priority(
        &mut self,
        priorities: &Vec<usize>,
        candidate: usize,
        budget: &mut MemoryBudget,
    ) -> (out: usize)
        requires
            old(self).sound(old(budget)),
        ensures
            final(self).sound(final(budget)),
            final(self).clock == old(self).clock,
            final(self).stock(final(budget)@).elsewhere() == old(self).stock(
                old(budget)@,
            ).elsewhere(),
            match old(self).stock(old(budget)@).yielding(priorities@, candidate) {
                Some(i) => {
                    &&& 0 <= i < old(self).entries@.len()
                    &&& out == old(self).entries@[i].image.size()
                    &&& final(self).stock(final(budget)@) == old(self).stock(
                        old(budget)@,
                    ).without(i)
                },
                None => out == 0 && final(self).stock(final(budget)@) == old(self).stock(
                    old(budget)@,
                ),
            },
    {
        let ghost stock = self.stock(budget@);
        proof {
            stock.lemma_yielding(priorities@, candidate);
        }
        let than: usize = match rank_of(priorities, candidate) {
            Some(than) => than,
            None => {
                return 0;
            },
        };
        let mut best: Option<(usize, usize)> = None;
        let mut i: usize = 0;
        while i < self.entries.len()
            invariant
                i <= self.entries@.len(),
                stock == self.stock(budget@),
                match best {
                    Some((b, r)) => {
                        &&& b < i
                        &&& stock.less_wanted(priorities@, than as int, b as int)
                        &&& r == rank(priorities@, stock.entries[b as int].index)
                        &&& forall|j: int| #[trigger]
                            stock.less_wanted(priorities@, than as int, j) && j < i ==> {
                                &&& rank(priorities@, stock.entries[j].index) <= r
                                &&& j > b ==> rank(priorities@, stock.entries[j].index) < r
                            }
                    },
                    None => forall|j: int|
                        j < i ==> !#[trigger] stock.less_wanted(priorities@, than as int, j),
                },
            decreases self.entries@.len() - i,
        {
            let wanted: usize = match rank_of(priorities, self.entries[i].index) {
                Some(r) => r,
                None => usize::MAX,
            };
            if self.entries[i].holders == 0 && wanted > than {
                let better = match best {
                    Some((_, r)) => wanted >= r,
                    None => true,
                };
                if better {
                    best = Some((i, wanted));
                }
            }
            i += 1;
        }
        match best {
            Some((b, _)) => {
                assert(stock.least_wanted(priorities@, than as int, b as int));
                proof {
                    stock.lemma_without(b as int);
                }
                let size: usize = self.entries[b].image.bytes();
                self.take_out(b, budget);
                size
            },
            None => 0,
        }
    }
}

/// Another entry of the same photograph that was used later.
pub open spec fn outdated<K>(s: Seq<Entry>, files: Seq<K>, k: int, m: int) -> bool {
    &&& 0 <= m < s.len()
    &&& m != k
    &&& s[m].index < files.len()
    &&& files[s[m].index as int] == files[s[k].index as int]
    &&& s[m].touched > s[k].touched || (s[m].touched == s[k].touched && m < k)
}

/// Where the entry at `k` belongs in a new list, if its photograph is in it.
pub open spec fn moved<K>(s: Seq<Entry>, files: Seq<K>, new: Seq<K>, k: int) -> Option<int> {
    if s[k].index >= files.len() || exists|m: int| outdated(s, files, k, m) {
        None
    } else {
        path::first_position(new, files[s[k].index as int])
    }
}

/// Which entries have a place in a new list.
pub open spec fn movable<K>(s: Seq<Entry>, files: Seq<K>, new: Seq<K>) -> Seq<bool> {
    Seq::new(s.len(), |k: int| moved(s, files, new, k) is Some)
}

/// No two entries move to one place.
proof fn lemma_moved_apart<K>(s: Seq<Entry>, files: Seq<K>, new: Seq<K>, a: int, b: int)
    requires
        0 <= a < b < s.len(),
        moved(s, files, new, a) is Some,
        moved(s, files, new, b) is Some,
    ensures
        moved(s, files, new, a) != moved(s, files, new, b),
{
    let x = files[s[a].index as int];
    let y = files[s[b].index as int];
    path::lemma_first_position(new, x);
    path::lemma_first_position(new, y);
    if x == y {
        assert(outdated(s, files, b, a) || outdated(s, files, a, b));
    }
}

impl DecodedCache {
    /// The place of the entry at `k` in a new list.
    fn destination<P: Identity>(&self, old_files: &Vec<P>, new_files: &Vec<P>, k: usize) -> (out:
        Option<usize>)
        requires
            k < self.entries@.len(),
        ensures
            match moved(self.entries@, path::keys(old_files@), path::keys(new_files@), k as int) {
                Some(i) => out is Some && out->0 == i && 0 <= i < new_files@.len(),
                None => out is None,
            },
    {
        let ghost files = path::keys(old_files@);
        let index: usize = self.entries[k].index;
        if index >= old_files.len() {
            return None;
        }
        let mut m: usize = 0;
        while m < self.entries.len()
            invariant
                m <= self.entries@.len(),
                k < self.entries@.len(),
                index == self.entries@[k as int].index,
                index < old_files@.len(),
                files == path::keys(old_files@),
                forall|j: int| j < m ==> !#[trigger] outdated(self.entries@, files, k as int, j),
            decreases self.entries@.len() - m,
        {
            let other: usize = self.entries[m].index;
            if m != k && other < old_files.len() && old_files[other].same(&old_files[index]) && (
            self.entries[m].touched > self.entries[k].touched || (self.entries[m].touched
                == self.entries[k].touched && m < k)) {
                assert(outdated(self.entries@, files, k as int, m as int));
                return None;
            }
            m += 1;
        }
        proof {
            path::lemma_first_position(path::keys(new_files@), files[index as int]);
        }
        path::position_of(new_files, &old_files[index])
    }

    /// Follows the photographs into a changed list. Images keep their memory,
    /// their marks and their age; those of photographs that left are dropped.
    pub fn rekey<P: Identity>(
        &mut self,
        old_files: &Vec<P>,
        new_files: &Vec<P>,
        budget: &mut MemoryBudget,
    )
        requires
            old(self).sound(old(budget)),
        ensures
            final(self).sound(final(budget)),
            final(self).clock == old(self).clock,
            final(self).stock(final(budget)@).elsewhere() == old(self).stock(
                old(budget)@,
            ).elsewhere(),
            followed(
                old(self).stock(old(budget)@),
                path::keys(old_files@),
                path::keys(new_files@),
                final(self).stock(final(budget)@),
            ),
    {
        let ghost begun = self.entries@;
        let ghost old_keys = path::keys(old_files@);
        let ghost new_keys = path::keys(new_files@);
        let mut keep: Vec<bool> = Vec::new();
        let mut places: Vec<usize> = Vec::new();
        let ghost mut origin: Seq<int> = Seq::empty();
        let mut k: usize = 0;
        while k < self.entries.len()
            invariant
                k <= self.entries@.len(),
                self.entries@ == begun,
                old_keys == path::keys(old_files@),
                new_keys == path::keys(new_files@),
                keep@.len() == k,
                forall|i: int|
                    0 <= i < k ==> #[trigger] keep@[i] == (moved(begun, old_keys, new_keys, i)
                        is Some),
                origin.len() == places@.len(),
                forall|i: int|
                    #![trigger origin[i]]
                    0 <= i < origin.len() ==> 0 <= origin[i] < k && moved(
                        begun,
                        old_keys,
                        new_keys,
                        origin[i],
                    ) == Some(places@[i] as int),
                forall|i: int, j: int|
                    0 <= i < j < origin.len() ==> #[trigger] origin[i] < #[trigger] origin[j],
                forall|i: int|
                    0 <= i < k && #[trigger] keep@[i] ==> origin.contains(i),
            decreases self.entries@.len() - k,
        {
            let ghost before = origin;
            match self.destination(old_files, new_files, k) {
                Some(place) => {
                    keep.push(true);
                    places.push(place);
                    proof {
                        origin = before.push(k as int);
                        assert forall|i: int| 0 <= i < k + 1 && #[trigger] keep@[i] implies origin.contains(
                            i,
                        ) by {
                            if i < k {
                                let w = choose|w: int| 0 <= w < before.len() && before[w] == i;
                                assert(origin[w] == i);
                            } else {
                                assert(origin[before.len() as int] == i);
                            }
                        }
                    }
                },
                None => {
                    keep.push(false);
                },
            }
            k += 1;
        }
        assert(keep@ =~= movable(begun, old_keys, new_keys));
        self.cull(&keep, budget);
        let ghost rest = self.entries@;
        let ghost from = choose|from: Seq<int>| kept_from(begun, keep@, rest, from);
        proof {
            lemma_same_positions(from, origin, keep@);
        }
        let ghost stock = self.stock(budget@);
        let mut j: usize = 0;
        while j < self.entries.len()
            invariant
                j <= self.entries@.len(),
                self.entries@.len() == rest.len(),
                places@.len() == rest.len(),
                self.detached@ == stock.detached,
                self.clock == old(self).clock,
                forall|i: int|
                    #![trigger self.entries@[i]]
                    0 <= i < j ==> self.entries@[i] == (Entry { index: places@[i], ..rest[i] }),
                forall|i: int| j <= i < rest.len() ==> self.entries@[i] == rest[i],
            decreases self.entries@.len() - j,
        {
            let place: usize = places[j];
            let entry = &mut self.entries[j];
            entry.index = place;
            j += 1;
        }
        proof {
            let now = self.entries@;
            lemma_same_sizes(now, rest);
            assert forall|i: int, j: int| 0 <= i < j < now.len() implies (#[trigger] now[i]).index
                != (#[trigger] now[j]).index by {
                assert(origin[i] < origin[j]);
                lemma_moved_apart(begun, old_keys, new_keys, origin[i], origin[j]);
            }
            assert forall|j: int| 0 <= j < now.len() implies came(
                begun,
                old_keys,
                new_keys,
                #[trigger] now[j],
            ) by {
                assert(from[j] == origin[j]);
                assert(from_entry(begun, old_keys, new_keys, from[j], now[j]));
            }
            assert forall|k: int|
                #![trigger begun[k]]
                0 <= k < begun.len() && moved(begun, old_keys, new_keys, k) is Some implies went(
                begun,
                old_keys,
                new_keys,
                k,
                now,
            ) by {
                assert(keep@[k]);
                assert(origin.contains(k));
                let j = choose|j: int| 0 <= j < origin.len() && origin[j] == k;
                assert(from_entry(begun, old_keys, new_keys, k, now[j]));
            }
        }
    }

    /// Ends one use of an image. The memory of an image that left the cache
    /// comes back with its last use.
    pub fn let_go(&mut self, id: u64, budget: &mut MemoryBudget)
        requires
            old(self).sound(old(budget)),
        ensures
            final(self).sound(final(budget)),
            final(self).clock == old(self).clock,
            final(self).stock(final(budget)@) == old(self).stock(old(budget)@).less_held(id),
            Call::LetGo(id).leads(old(self).entries@, final(self).entries@),
            final(self).stock(final(budget)@).elsewhere() == old(self).stock(
                old(budget)@,
            ).elsewhere(),
    {
        let ghost stock = self.stock(budget@);
        let mut i: usize = 0;
        proof {
            path::lemma_first_position(held_entries(stock.entries), (id, true));
            path::lemma_first_position(detached_ids(stock.detached), id);
        }
        while i < self.entries.len()
            invariant
                i <= self.entries@.len(),
                self.sound(budget),
                stock == self.stock(budget@),
                stock == old(self).stock(old(budget)@),
                self.clock == old(self).clock,
                forall|k: int| 0 <= k < i ==> held_entries(stock.entries)[k] != (id, true),
                forall|k: int| #[trigger]
                    path::is_first(held_entries(stock.entries), (id, true), k)
                        ==> path::first_position(held_entries(stock.entries), (id, true)) == Some(
                        k,
                    ),
            decreases self.entries@.len() - i,
        {
            if self.entries[i].image.id == id && self.entries[i].holders > 0 {
                assert(path::is_first(held_entries(stock.entries), (id, true), i as int));
                let entry = &mut self.entries[i];
                entry.holders = entry.holders - 1;
                proof {
                    lemma_same_sizes(self.entries@, stock.entries);
                }
                return;
            }
            i += 1;
        }
        let mut j: usize = 0;
        while j < self.detached.len()
            invariant
                j <= self.detached@.len(),
                self.sound(budget),
                stock == self.stock(budget@),
                stock == old(self).stock(old(budget)@),
                self.clock == old(self).clock,
                path::first_position(held_entries(stock.entries), (id, true)) is None,
                forall|k: int| 0 <= k < j ==> detached_ids(stock.detached)[k] != id,
                forall|k: int| #[trigger]
                    path::is_first(detached_ids(stock.detached), id, k) ==> path::first_position(
                        detached_ids(stock.detached),
                        id,
                    ) == Some(k),
            decreases self.detached@.len() - j,
        {
            if self.detached[j].image.id == id {
                assert(path::is_first(detached_ids(stock.detached), id, j as int));
                proof {
                    lemma_detached_bytes(stock.detached);
                    lemma_entry_bytes(stock.entries);
                }
                if self.detached[j].holders == 1 {
                    let last = self.detached.remove(j);
                    last.image.free(budget);
                } else {
                    let one = &mut self.detached[j];
                    one.holders = one.holders - 1;
                    proof {
                        lemma_same_detached(self.detached@, stock.detached);
                    }
                }
                return;
            }
            j += 1;
        }
    }
}

/// The entry at `k`, moved to its place in a new list, is `e`.
pub open spec fn from_entry<K>(
    s: Seq<Entry>,
    files: Seq<K>,
    new: Seq<K>,
    k: int,
    e: Entry,
) -> bool {
    &&& 0 <= k < s.len()
    &&& moved(s, files, new, k) == Some(e.index as int)
    &&& e == (Entry { index: e.index, ..s[k] })
}

/// `e` is one of the entries, moved.
pub open spec fn came<K>(s: Seq<Entry>, files: Seq<K>, new: Seq<K>, e: Entry) -> bool {
    exists|k: int| from_entry(s, files, new, k, e)
}

/// The entry at `k` is in `now`, moved.
pub open spec fn went<K>(s: Seq<Entry>, files: Seq<K>, new: Seq<K>, k: int, now: Seq<Entry>) -> bool {
    exists|j: int| 0 <= j < now.len() && from_entry(s, files, new, k, #[trigger] now[j])
}

/// Every entry of `now` is an old one at its new place.
pub open spec fn all_moved<K>(s: Seq<Entry>, files: Seq<K>, new: Seq<K>, now: Seq<Entry>) -> bool {
    forall|j: int| 0 <= j < now.len() ==> came(s, files, new, #[trigger] now[j])
}

/// Every old entry with a place in the new list is in `now`.
pub open spec fn none_lost<K>(s: Seq<Entry>, files: Seq<K>, new: Seq<K>, now: Seq<Entry>) -> bool {
    forall|k: int|
        #![trigger s[k]]
        0 <= k < s.len() && moved(s, files, new, k) is Some ==> went(s, files, new, k, now)
}

/// The images followed their photographs from one list to another.
pub open spec fn followed<K>(stock: Stock, files: Seq<K>, new: Seq<K>, now: Stock) -> bool {
    let culled = stock.culled(movable(stock.entries, files, new), stock.entries.len() as int);
    &&& now.detached == culled.detached
    &&& now.budget == culled.budget
    &&& now.entries.len() == culled.entries.len()
    &&& all_moved(stock.entries, files, new, now.entries)
    &&& none_lost(stock.entries, files, new, now.entries)
}

/// The images of the entries, and whether they are held.
pub open spec fn held_entries(s: Seq<Entry>) -> Seq<(u64, bool)> {
    Seq::new(s.len(), |i: int| (s[i].image.id, s[i].holders > 0))
}

pub open spec fn detached_ids(s: Seq<Detached>) -> Seq<u64> {
    Seq::new(s.len(), |i: int| s[i].image.id)
}

impl Stock {
    /// With one use less of an image.
    pub open spec fn less_held(self, id: u64) -> Stock {
        match path::first_position(held_entries(self.entries), (id, true)) {
            Some(i) => Stock {
                entries: self.entries.update(
                    i,
                    Entry {
                        holders: (self.entries[i].holders - 1) as usize,
                        ..self.entries[i]
                    },
                ),
                ..self
            },
            None => match path::first_position(detached_ids(self.detached), id) {
                None => self,
                Some(j) => if self.detached[j].holders == 1 {
                    Stock {
                        detached: self.detached.remove(j),
                        budget: self.budget.refund(self.detached[j].image.size()),
                        ..self
                    }
                } else {
                    Stock {
                        detached: self.detached.update(
                            j,
                            Detached {
                                holders: (self.detached[j].holders - 1) as usize,
                                ..self.detached[j]
                            },
                        ),
                        ..self
                    }
                },
            },
        }
    }
}

proof fn lemma_same_sizes(a: Seq<Entry>, b: Seq<Entry>)
    requires
        a.len() == b.len(),
        forall|i: int|
            0 <= i < a.len() ==> (#[trigger] a[i]).image.size() == b[i].image.size(),
    ensures
        entry_bytes(a) == entry_bytes(b),
    decreases a.len(),
{
    if a.len() > 0 {
        assert forall|i: int| 0 <= i < a.len() - 1 implies (
        #[trigger] a.drop_last()[i]).image.size() == b.drop_last()[i].image.size() by {
            assert(a[i].image.size() == b[i].image.size());
        }
        lemma_same_sizes(a.drop_last(), b.drop_last());
        assert(a[a.len() - 1].image.size() == b[b.len() - 1].image.size());
    }
}

proof fn lemma_same_detached(a: Seq<Detached>, b: Seq<Detached>)
    requires
        a.len() == b.len(),
        forall|i: int|
            0 <= i < a.len() ==> (#[trigger] a[i]).image.size() == b[i].image.size(),
    ensures
        detached_bytes(a) == detached_bytes(b),
    decreases a.len(),
{
    if a.len() > 0 {
        assert forall|i: int| 0 <= i < a.len() - 1 implies (
        #[trigger] a.drop_last()[i]).image.size() == b.drop_last()[i].image.size() by {
            assert(a[i].image.size() == b[i].image.size());
        }
        lemma_same_detached(a.drop_last(), b.drop_last());
        assert(a[a.len() - 1].image.size() == b[b.len() - 1].image.size());
    }
}

/// Two ascending lists of the same positions are the same.
proof fn lemma_same_positions(a: Seq<int>, b: Seq<int>, keep: Seq<bool>)
    requires
        forall|i: int, j: int| 0 <= i < j < a.len() ==> #[trigger] a[i] < #[trigger] a[j],
        forall|i: int, j: int| 0 <= i < j < b.len() ==> #[trigger] b[i] < #[trigger] b[j],
        forall|i: int|
            #![trigger a[i]]
            0 <= i < a.len() ==> 0 <= a[i] < keep.len() && keep[a[i]],
        forall|i: int|
            #![trigger b[i]]
            0 <= i < b.len() ==> 0 <= b[i] < keep.len() && keep[b[i]],
        forall|k: int| 0 <= k < keep.len() && #[trigger] keep[k] ==> a.contains(k),
        forall|k: int| 0 <= k < keep.len() && #[trigger] keep[k] ==> b.contains(k),
    ensures
        a == b,
{
    assert(a.to_set() =~= b.to_set());
    lemma_ascending_unique(a, b);
}

proof fn lemma_ascending_unique(a: Seq<int>, b: Seq<int>)
    requires
        forall|i: int, j: int| 0 <= i < j < a.len() ==> #[trigger] a[i] < #[trigger] a[j],
        forall|i: int, j: int| 0 <= i < j < b.len() ==> #[trigger] b[i] < #[trigger] b[j],
        a.to_set() == b.to_set(),
    ensures
        a == b,
    decreases a.len(),
{
    if a.len() == 0 {
        if b.len() > 0 {
            assert(b.to_set().contains(b[0]));
            assert(a.to_set().contains(b[0]));
        }
        assert(a =~= b);
    } else {
        assert(a.to_set().contains(a.last()));
        assert(b.contains(a.last()));
        assert(b.len() > 0);
        assert(b.to_set().contains(b.last()));
        assert(a.contains(b.last()));
        let i = choose|i: int| 0 <= i < b.len() && b[i] == a.last();
        let j = choose|j: int| 0 <= j < a.len() && a[j] == b.last();
        assert(a.last() == b.last());
        let c = a.drop_last();
        let d = b.drop_last();
        assert(c.to_set() =~= d.to_set()) by {
            assert forall|x: int| c.to_set().contains(x) <==> d.to_set().contains(x) by {
                if c.contains(x) {
                    let k = choose|k: int| 0 <= k < c.len() && c[k] == x;
                    assert(a[k] == x && a[k] < a.last());
                    assert(a.to_set().contains(x));
                    assert(b.contains(x));
                    let m = choose|m: int| 0 <= m < b.len() && b[m] == x;
                    assert(d[m] == x);
                }
                if d.contains(x) {
                    let k = choose|k: int| 0 <= k < d.len() && d[k] == x;
                    assert(b[k] == x && b[k] < b.last());
                    assert(b.to_set().contains(x));
                    assert(a.contains(x));
                    let m = choose|m: int| 0 <= m < a.len() && a[m] == x;
                    assert(c[m] == x);
                }
            }
        }
        lemma_ascending_unique(c, d);
        assert(a =~= c.push(a.last()));
        assert(b =~= d.push(b.last()));
    }
}

/// A mark on an image costs nothing.
pub(crate) proof fn lemma_marked(stock: Stock, i: int)
    requires
        stock.sound(),
        0 <= i < stock.entries.len(),
    ensures
        ({
            let marked = Stock {
                entries: stock.entries.update(
                    i,
                    Entry { prefetched: false, ..stock.entries[i] },
                ),
                ..stock
            };
            marked.sound() && marked.elsewhere() == stock.elsewhere()
        }),
{
    lemma_same_sizes(
        stock.entries,
        stock.entries.update(i, Entry { prefetched: false, ..stock.entries[i] }),
    );
}

/// A dealing with a budget and the leases that are out.
pub enum Dealing {
    /// Asks for a lease.
    Reserve(nat),
    /// Gives back the lease at a position.
    Release(int),
    /// Asks that the lease at a position cover another number of bytes.
    Resize(int, nat),
    /// Splits some bytes off the lease at a position.
    Split(int, nat),
    /// Wakes all waiters.
    Wake,
}

/// A budget and what its leases cover.
pub struct Ledger {
    pub budget: Budget,
    pub leases: Seq<int>,
}

/// What some leases cover together.
pub open spec fn covered(leases: Seq<int>) -> int
    decreases leases.len(),
{
    if leases.len() == 0 {
        0
    } else {
        covered(leases.drop_last()) + leases.last()
    }
}

impl Ledger {
    /// What is used is what the leases cover, and is within the limit.
    pub open spec fn balanced(self) -> bool {
        &&& self.budget.used == covered(self.leases)
        &&& self.budget.used <= self.budget.limit
        &&& forall|i: int| 0 <= i < self.leases.len() ==> 0 <= #[trigger] self.leases[i]
    }

    /// After a dealing. One with a lease that is not out does not take place.
    pub open spec fn after(self, dealing: Dealing) -> Ledger {
        match dealing {
            Dealing::Reserve(bytes) => if bytes <= self.budget.available() {
                Ledger {
                    budget: self.budget.charge(bytes as int),
                    leases: self.leases.push(bytes as int),
                }
            } else {
                self
            },
            Dealing::Release(i) => if 0 <= i < self.leases.len() {
                Ledger {
                    budget: self.budget.refund(self.leases[i]),
                    leases: self.leases.remove(i),
                }
            } else {
                self
            },
            Dealing::Resize(i, bytes) => if !(0 <= i < self.leases.len()) {
                self
            } else if bytes <= self.leases[i] {
                Ledger {
                    budget: self.budget.refund(self.leases[i] - bytes),
                    leases: self.leases.update(i, bytes as int),
                }
            } else if bytes - self.leases[i] <= self.budget.available() {
                Ledger {
                    budget: self.budget.charge(bytes - self.leases[i]),
                    leases: self.leases.update(i, bytes as int),
                }
            } else {
                self
            },
            Dealing::Split(i, bytes) => if 0 <= i < self.leases.len() && bytes <= self.leases[i] {
                Ledger {
                    leases: self.leases.update(i, self.leases[i] - bytes).push(bytes as int),
                    ..self
                }
            } else {
                self
            },
            Dealing::Wake => Ledger {
                budget: Budget { epoch: self.budget.epoch.wrapping_add(1), ..self.budget },
                ..self
            },
        }
    }

    /// After some dealings, one after the other.
    pub open spec fn after_all(self, dealings: Seq<Dealing>) -> Ledger
        decreases dealings.len(),
    {
        if dealings.len() == 0 {
            self
        } else {
            self.after_all(dealings.drop_last()).after(dealings.last())
        }
    }

    /// Whether waiters may look again after a dealing: something came back, a
    /// lease did not grow, or they were woken.
    pub open spec fn stirs(self, dealing: Dealing) -> bool {
        match dealing {
            Dealing::Release(i) => 0 <= i < self.leases.len(),
            Dealing::Resize(i, bytes) => 0 <= i < self.leases.len() && bytes <= self.leases[i],
            Dealing::Wake => true,
            _ => false,
        }
    }

    /// How many of some dealings let waiters look again.
    pub open spec fn stirred(self, dealings: Seq<Dealing>) -> nat
        decreases dealings.len(),
    {
        if dealings.len() == 0 {
            0
        } else {
            self.stirred(dealings.drop_last()) + if self.after_all(dealings.drop_last()).stirs(
                dealings.last(),
            ) {
                1nat
            } else {
                0nat
            }
        }
    }
}

proof fn lemma_covered(leases: Seq<int>)
    requires
        forall|i: int| 0 <= i < leases.len() ==> 0 <= #[trigger] leases[i],
    ensures
        0 <= covered(leases),
        forall|i: int| 0 <= i < leases.len() ==> #[trigger] leases[i] <= covered(leases),
        forall|i: int|
            0 <= i < leases.len() ==> covered(#[trigger] leases.remove(i)) == covered(leases)
                - leases[i],
        forall|i: int, bytes: int|
            0 <= i < leases.len() ==> covered(#[trigger] leases.update(i, bytes)) == covered(leases)
                - leases[i] + bytes,
        forall|bytes: int| covered(#[trigger] leases.push(bytes)) == covered(leases) + bytes,
    decreases leases.len(),
{
    assert forall|bytes: int| covered(#[trigger] leases.push(bytes)) == covered(leases)
        + bytes by {
        assert(leases.push(bytes).drop_last() =~= leases);
    }
    if leases.len() > 0 {
        let init = leases.drop_last();
        lemma_covered(init);
        assert forall|i: int| 0 <= i < leases.len() implies #[trigger] leases[i] <= covered(
            leases,
        ) by {
            if i < leases.len() - 1 {
                assert(leases[i] == init[i]);
            }
        }
        assert forall|i: int| 0 <= i < leases.len() implies covered(#[trigger] leases.remove(i))
            == covered(leases) - leases[i] by {
            if i < leases.len() - 1 {
                assert(leases.remove(i).drop_last() =~= init.remove(i));
                assert(init[i] == leases[i]);
            } else {
                assert(leases.remove(i) =~= init);
            }
        }
        assert forall|i: int, bytes: int| 0 <= i < leases.len() implies covered(
            #[trigger] leases.update(i, bytes),
        ) == covered(leases) - leases[i] + bytes by {
            if i < leases.len() - 1 {
                assert(leases.update(i, bytes).drop_last() =~= init.update(i, bytes));
                assert(init[i] == leases[i]);
            } else {
                assert(leases.update(i, bytes).drop_last() =~= init);
            }
        }
    }
}

proof fn lemma_dealing_balances(ledger: Ledger, dealing: Dealing)
    requires
        ledger.balanced(),
    ensures
        ledger.after(dealing).balanced(),
        ledger.after(dealing).budget.limit == ledger.budget.limit,
{
    lemma_covered(ledger.leases);
    match dealing {
        Dealing::Split(i, bytes) => {
            if 0 <= i < ledger.leases.len() && bytes <= ledger.leases[i] {
                let split = ledger.leases.update(i, ledger.leases[i] - bytes);
                lemma_covered(split);
                assert(covered(split.push(bytes as int)) == covered(ledger.leases));
            }
        },
        _ => {},
    }
}

/// Whatever is reserved, released, resized, split and woken, in whatever order,
/// the memory that is used is what the leases cover together, and never exceeds
/// the limit.
pub proof fn law_leases_account_for_what_is_used(ledger: Ledger, dealings: Seq<Dealing>)
    requires
        ledger.balanced(),
    ensures
        ledger.after_all(dealings).balanced(),
        ledger.after_all(dealings).budget.limit == ledger.budget.limit,
    decreases dealings.len(),
{
    if dealings.len() > 0 {
        law_leases_account_for_what_is_used(ledger, dealings.drop_last());
        lemma_dealing_balances(ledger.after_all(dealings.drop_last()), dealings.last());
    }
}

proof fn lemma_epochs(ledger: Ledger, dealings: Seq<Dealing>)
    ensures
        ledger.after_all(dealings).budget.epoch as int == (ledger.budget.epoch
            + ledger.stirred(dealings)) % 0x1_0000_0000_0000_0000,
    decreases dealings.len(),
{
    if dealings.len() > 0 {
        lemma_epochs(ledger, dealings.drop_last());
    }
}

/// Whoever waits may go on as soon as something was released, a lease did not
/// grow, or the waiters were woken, whatever else was dealt before and after. The
/// counter wraps, so this holds of fewer changes than it has values.
pub proof fn law_no_wake_up_is_lost(ledger: Ledger, dealings: Seq<Dealing>)
    requires
        0 < ledger.stirred(dealings) < 0x1_0000_0000_0000_0000,
    ensures
        ledger.after_all(dealings).budget.epoch != ledger.budget.epoch,
{
    lemma_epochs(ledger, dealings);
}

/// A call that changes what is cached, or that asks for it.
pub enum Call {
    /// Caches an entry in place of any other of its photograph.
    Insert(Entry),
    /// Takes the mark of a photograph, and whether there was one.
    Take(usize, bool),
    /// Gets the image of a photograph at some time.
    Get(usize, u64),
    /// Ends one use of an image.
    LetGo(u64),
    /// Drops the entry at a position.
    Evict(int),
}

impl Call {
    /// A call leads from one list of entries to another.
    pub open spec fn leads(self, before: Seq<Entry>, after: Seq<Entry>) -> bool {
        match self {
            Call::Insert(e) => {
                &&& forall|i: int|
                    #[trigger] at(before, e.index, i) ==> after == before.remove(i).push(e)
                &&& !cached(before, e.index) ==> after == before.push(e)
            },
            Call::Take(index, out) => {
                &&& forall|i: int| #[trigger]
                    at(before, index, i) ==> out == before[i].prefetched && after == before.update(
                        i,
                        Entry { prefetched: false, ..before[i] },
                    )
                &&& !cached(before, index) ==> !out && after == before
            },
            Call::Get(index, time) => {
                &&& forall|i: int| #[trigger]
                    at(before, index, i) ==> after == before.update(
                        i,
                        Entry {
                            holders: (before[i].holders + 1) as usize,
                            touched: time,
                            ..before[i]
                        },
                    )
                &&& !cached(before, index) ==> after == before
            },
            Call::LetGo(id) => match path::first_position(held_entries(before), (id, true)) {
                Some(i) => after == before.update(
                    i,
                    Entry { holders: (before[i].holders - 1) as usize, ..before[i] },
                ),
                None => after == before,
            },
            Call::Evict(i) => 0 <= i < before.len() && after == before.remove(i),
        }
    }

    /// Whether a call puts the entry of a photograph in or out.
    pub open spec fn replaces(self, before: Seq<Entry>, index: usize) -> bool {
        match self {
            Call::Insert(e) => e.index == index,
            Call::Evict(i) => before[i].index == index,
            _ => false,
        }
    }

    /// Whether a call takes the mark of a photograph.
    pub open spec fn takes(self, index: usize) -> bool {
        self matches Call::Take(i, _) && i == index
    }
}

/// Whether a photograph is marked as decoded ahead of need.
pub open spec fn marked(s: Seq<Entry>, index: usize) -> bool {
    exists|i: int| #[trigger] at(s, index, i) && s[i].prefetched
}

/// Whether one of the calls from `from` to `to` takes the mark of a photograph.
pub open spec fn taken_between(calls: Seq<Call>, index: usize, from: int, to: int) -> bool {
    exists|k: int| from <= k < to && (#[trigger] calls[k]).takes(index)
}

/// What one call does to a mark.
proof fn lemma_mark(call: Call, before: Seq<Entry>, after: Seq<Entry>, index: usize)
    requires
        one_each(before),
        call.leads(before, after),
    ensures
        one_each(after),
        call.takes(index) ==> call == Call::Take(index, marked(before, index)) && !marked(
            after,
            index,
        ),
        !call.takes(index) && !call.replaces(before, index) ==> marked(after, index) == marked(
            before,
            index,
        ),
        call is Insert && call->Insert_0.index == index ==> marked(after, index)
            == call->Insert_0.prefetched,
{
    match call {
        Call::Insert(e) => {
            let n = after.len() - 1;
            if cached(before, e.index) {
                let i = choose|i: int| at(before, e.index, i);
                assert(after == before.remove(i).push(e));
                lemma_mark_removed(before, i, index);
                lemma_mark_pushed(before.remove(i), e, index);
            } else {
                assert forall|k: int| 0 <= k < before.len() implies (
                #[trigger] before[k]).index != e.index by {
                    assert(!at(before, e.index, k));
                }
                lemma_mark_pushed(before, e, index);
            }
        },
        Call::Take(taken, out) => {
            if cached(before, taken) {
                let i = choose|i: int| at(before, taken, i);
                lemma_mark_updated(before, i, Entry { prefetched: false, ..before[i] }, index);
                if marked(before, index) && taken == index {
                    let j = choose|j: int| #[trigger] at(before, index, j) && before[j].prefetched;
                    assert(i == j);
                }
            } else if marked(before, index) {
                let j = choose|j: int| #[trigger] at(before, index, j) && before[j].prefetched;
                assert(cached(before, index));
            }
        },
        Call::Get(got, time) => {
            if cached(before, got) {
                let i = choose|i: int| at(before, got, i);
                let e = Entry {
                    holders: (before[i].holders + 1) as usize,
                    touched: time,
                    ..before[i]
                };
                lemma_mark_updated(before, i, e, index);
            }
        },
        Call::LetGo(id) => {
            path::lemma_first_position(held_entries(before), (id, true));
            match path::first_position(held_entries(before), (id, true)) {
                Some(i) => {
                    let e = Entry { holders: (before[i].holders - 1) as usize, ..before[i] };
                    lemma_mark_updated(before, i, e, index);
                },
                None => {},
            }
        },
        Call::Evict(i) => {
            lemma_mark_removed(before, i, index);
        },
    }
}

proof fn lemma_mark_removed(s: Seq<Entry>, i: int, index: usize)
    requires
        one_each(s),
        0 <= i < s.len(),
    ensures
        one_each(s.remove(i)),
        forall|k: int| 0 <= k < s.len() - 1 ==> (#[trigger] s.remove(i)[k]).index != s[i].index,
        s[i].index != index ==> marked(s.remove(i), index) == marked(s, index),
{
    let rest = s.remove(i);
    assert forall|j: int, k: int| 0 <= j < k < rest.len() implies (#[trigger] rest[j]).index != (
    #[trigger] rest[k]).index by {
        let a = if j < i {
            j
        } else {
            j + 1
        };
        let b = if k < i {
            k
        } else {
            k + 1
        };
        assert(s[a].index != s[b].index);
    }
    assert forall|k: int| 0 <= k < s.len() - 1 implies (#[trigger] rest[k]).index
        != s[i].index by {
        let a = if k < i {
            k
        } else {
            k + 1
        };
        if a < i {
            assert(s[a].index != s[i].index);
        } else {
            assert(s[i].index != s[a].index);
        }
    }
    if s[i].index != index {
        if marked(s, index) {
            let j = choose|j: int| #[trigger] at(s, index, j) && s[j].prefetched;
            let k = if j < i {
                j
            } else {
                j - 1
            };
            assert(at(rest, index, k) && rest[k].prefetched);
        }
        if marked(rest, index) {
            let k = choose|k: int| #[trigger] at(rest, index, k) && rest[k].prefetched;
            let j = if k < i {
                k
            } else {
                k + 1
            };
            assert(at(s, index, j) && s[j].prefetched);
        }
    }
}

proof fn lemma_mark_pushed(s: Seq<Entry>, e: Entry, index: usize)
    requires
        one_each(s),
        forall|k: int| 0 <= k < s.len() ==> (#[trigger] s[k]).index != e.index,
    ensures
        one_each(s.push(e)),
        e.index == index ==> marked(s.push(e), index) == e.prefetched,
        e.index != index ==> marked(s.push(e), index) == marked(s, index),
{
    let now = s.push(e);
    let n = s.len() as int;
    assert forall|j: int, k: int| 0 <= j < k < now.len() implies (#[trigger] now[j]).index != (
    #[trigger] now[k]).index by {
        if k == n {
            assert(s[j].index != e.index);
        } else {
            assert(s[j].index != s[k].index);
        }
    }
    if e.index == index {
        if e.prefetched {
            assert(at(now, index, n) && now[n].prefetched);
        }
        if marked(now, index) {
            let k = choose|k: int| #[trigger] at(now, index, k) && now[k].prefetched;
            if k < n {
                assert(s[k].index != e.index);
            }
        }
    } else {
        if marked(s, index) {
            let k = choose|k: int| #[trigger] at(s, index, k) && s[k].prefetched;
            assert(at(now, index, k) && now[k].prefetched);
        }
        if marked(now, index) {
            let k = choose|k: int| #[trigger] at(now, index, k) && now[k].prefetched;
            assert(at(s, index, k) && s[k].prefetched);
        }
    }
}

proof fn lemma_mark_updated(s: Seq<Entry>, i: int, e: Entry, index: usize)
    requires
        one_each(s),
        0 <= i < s.len(),
        e.index == s[i].index,
    ensures
        one_each(s.update(i, e)),
        e.prefetched == s[i].prefetched || e.index != index ==> marked(s.update(i, e), index)
            == marked(s, index),
        e.index == index ==> marked(s.update(i, e), index) == e.prefetched,
{
    let now = s.update(i, e);
    assert forall|j: int, k: int| 0 <= j < k < now.len() implies (#[trigger] now[j]).index != (
    #[trigger] now[k]).index by {
        assert(s[j].index != s[k].index);
    }
    assert(at(now, e.index, i));
    assert(at(s, e.index, i));
    if marked(s, index) {
        let k = choose|k: int| #[trigger] at(s, index, k) && s[k].prefetched;
        assert(at(now, index, k));
    }
    if marked(now, index) {
        let k = choose|k: int| #[trigger] at(now, index, k) && now[k].prefetched;
        assert(at(s, index, k));
    }
}

/// A mark is taken once. After an image was cached, and as long as its entry is
/// neither replaced nor dropped, whatever other calls stand between: the first
/// call that takes its mark is told how it was cached, and every later one that
/// there is none. `lists` are the entries between the calls.
pub proof fn law_a_mark_is_taken_once(lists: Seq<Seq<Entry>>, calls: Seq<Call>, entry: Entry, n: int)
    requires
        lists.len() == calls.len() + 1,
        one_each(lists[0]),
        0 < n < calls.len(),
        forall|k: int|
            0 <= k <= n ==> (#[trigger] calls[k]).leads(lists[k], lists[k + 1]),
        calls[0] == Call::Insert(entry),
        forall|k: int| 0 < k <= n ==> !(#[trigger] calls[k]).replaces(lists[k], entry.index),
        calls[n].takes(entry.index),
    ensures
        calls[n] == Call::Take(
            entry.index,
            entry.prefetched && !taken_between(calls, entry.index, 1, n),
        ),
{
    lemma_mark_kept(lists, calls, entry, n);
    assert(calls[n].leads(lists[n], lists[n + 1]));
    lemma_mark(calls[n], lists[n], lists[n + 1], entry.index);
}

proof fn lemma_mark_kept(lists: Seq<Seq<Entry>>, calls: Seq<Call>, entry: Entry, n: int)
    requires
        lists.len() == calls.len() + 1,
        one_each(lists[0]),
        0 < n <= calls.len(),
        forall|k: int| 0 <= k < n ==> (#[trigger] calls[k]).leads(lists[k], lists[k + 1]),
        calls[0] == Call::Insert(entry),
        forall|k: int| 0 < k < n ==> !(#[trigger] calls[k]).replaces(lists[k], entry.index),
    ensures
        one_each(lists[n]),
        marked(lists[n], entry.index) == (entry.prefetched && !taken_between(
            calls,
            entry.index,
            1,
            n,
        )),
    decreases n,
{
    if n == 1 {
        assert(calls[0].leads(lists[0], lists[1]));
        lemma_mark(calls[0], lists[0], lists[1], entry.index);
    } else {
        lemma_mark_kept(lists, calls, entry, n - 1);
        let call = calls[n - 1];
        assert(call.leads(lists[n - 1], lists[n]));
        lemma_mark(call, lists[n - 1], lists[n], entry.index);
        if taken_between(calls, entry.index, 1, n - 1) {
            let k = choose|k: int| 1 <= k < n - 1 && (#[trigger] calls[k]).takes(entry.index);
            assert(1 <= k < n && calls[k].takes(entry.index));
        }
        if taken_between(calls, entry.index, 1, n) && !call.takes(entry.index) {
            let k = choose|k: int| 1 <= k < n && (#[trigger] calls[k]).takes(entry.index);
            assert(1 <= k < n - 1 && calls[k].takes(entry.index));
        }
    }
}

/// A photograph that is not cached has no mark.
pub proof fn law_what_is_not_cached_has_no_mark(
    before: Seq<Entry>,
    after: Seq<Entry>,
    index: usize,
    out: bool,
)
    requires
        Call::Take(index, out).leads(before, after),
        !cached(before, index),
    ensures
        !out,
        after == before,
{
}

/// To free memory, the images that were used longest ago are dropped: none that stays
/// and could be dropped was used before one that is gone. Images that are held, or to
/// be kept, stay.
pub proof fn law_the_least_recently_used_images_go_first(
    stock: Stock,
    keep: Option<usize>,
    bytes: int,
    gone: Entry,
    left: Entry,
)
    ensures
        ({
            let (now, enough) = stock.evicted_for(keep, bytes);
            &&& enough ==> now.budget.available() >= bytes
            &&& stock.budget.available() >= bytes ==> now == stock
            &&& now.entries.contains(left) ==> stock.entries.contains(left)
            &&& stock.entries.contains(left) && (left.holders > 0 || keep == Some(left.index))
                ==> now.entries.contains(left)
            &&& stock.entries.contains(gone) && !now.entries.contains(gone) && now.entries.contains(
                left,
            ) && left.holders == 0 && keep != Some(left.index) ==> gone.touched <= left.touched
        }),
    decreases stock.entries.len(),
{
    stock.lemma_victim(keep);
    if stock.budget.available() < bytes && stock.victim(keep) is Some {
        let i = stock.victim(keep)->0;
        if 0 <= i < stock.entries.len() {
            let rest = stock.without(i);
            let e = stock.entries[i];
            assert(rest.entries == stock.entries.remove(i));
            assert forall|x: Entry| rest.entries.contains(x) implies stock.entries.contains(x) by {
                let k = choose|k: int| 0 <= k < rest.entries.len() && rest.entries[k] == x;
                if k < i {
                    assert(stock.entries[k] == x);
                } else {
                    assert(stock.entries[k + 1] == x);
                }
            }
            assert forall|x: Entry| stock.entries.contains(x) && x != e implies rest.entries.contains(
                x,
            ) by {
                let k = choose|k: int| 0 <= k < stock.entries.len() && stock.entries[k] == x;
                if k < i {
                    assert(rest.entries[k] == x);
                } else {
                    assert(rest.entries[k - 1] == x);
                }
            }
            if stock.entries.contains(left) && left.holders == 0 && keep != Some(left.index) {
                let k = choose|k: int| 0 <= k < stock.entries.len() && stock.entries[k] == left;
                assert(stock.free(keep, k));
                assert(e.touched <= left.touched);
            }
            assert(stock.free(keep, i));
            if e.image.size() != 0 {
                law_the_least_recently_used_images_go_first(rest, keep, bytes, gone, left);
            }
        }
    }
}

/// To bring the cache back to its size, the images that were used longest ago are
/// dropped, and none that is held or to be kept.
pub proof fn law_trimming_drops_the_least_recently_used(
    stock: Stock,
    keep: Option<usize>,
    bytes: int,
    gone: Entry,
    left: Entry,
)
    ensures
        ({
            let now = stock.trimmed(keep, bytes);
            &&& entry_bytes(stock.entries) <= bytes ==> now == stock
            &&& now.entries.contains(left) ==> stock.entries.contains(left)
            &&& stock.entries.contains(left) && (left.holders > 0 || keep == Some(left.index))
                ==> now.entries.contains(left)
            &&& stock.entries.contains(gone) && !now.entries.contains(gone) && now.entries.contains(
                left,
            ) && left.holders == 0 && keep != Some(left.index) ==> gone.touched <= left.touched
        }),
    decreases stock.entries.len(),
{
    stock.lemma_victim(keep);
    if entry_bytes(stock.entries) > bytes && stock.victim(keep) is Some {
        let i = stock.victim(keep)->0;
        if 0 <= i < stock.entries.len() {
            let rest = stock.without(i);
            let e = stock.entries[i];
            assert(rest.entries == stock.entries.remove(i));
            assert forall|x: Entry| rest.entries.contains(x) implies stock.entries.contains(x) by {
                let k = choose|k: int| 0 <= k < rest.entries.len() && rest.entries[k] == x;
                if k < i {
                    assert(stock.entries[k] == x);
                } else {
                    assert(stock.entries[k + 1] == x);
                }
            }
            assert forall|x: Entry| stock.entries.contains(x) && x != e implies rest.entries.contains(
                x,
            ) by {
                let k = choose|k: int| 0 <= k < stock.entries.len() && stock.entries[k] == x;
                if k < i {
                    assert(rest.entries[k] == x);
                } else {
                    assert(rest.entries[k - 1] == x);
                }
            }
            if stock.entries.contains(left) && left.holders == 0 && keep != Some(left.index) {
                let k = choose|k: int| 0 <= k < stock.entries.len() && stock.entries[k] == left;
                assert(stock.free(keep, k));
                assert(e.touched <= left.touched);
            }
            assert(stock.free(keep, i));
            if e.image.size() != 0 {
                law_trimming_drops_the_least_recently_used(rest, keep, bytes, gone, left);
            }
        }
    }
}

/// An entry that may be evicted and was used longest ago, among the first `n`.
proof fn lemma_oldest(stock: Stock, keep: Option<usize>, n: int) -> (i: int)
    requires
        0 <= n <= stock.entries.len(),
        exists|j: int| j < n && #[trigger] stock.free(keep, j),
    ensures
        stock.free(keep, i),
        i < n,
        forall|j: int| #[trigger]
            stock.free(keep, j) && j < n ==> stock.entries[i].touched <= stock.entries[j].touched
                && (j < i ==> stock.entries[i].touched < stock.entries[j].touched),
    decreases n,
{
    if exists|j: int| j < n - 1 && #[trigger] stock.free(keep, j) {
        let i = lemma_oldest(stock, keep, n - 1);
        if stock.free(keep, n - 1) && stock.entries[n - 1].touched < stock.entries[i].touched {
            n - 1
        } else {
            i
        }
    } else {
        n - 1
    }
}

proof fn lemma_victim_found(stock: Stock, keep: Option<usize>)
    ensures
        stock.victim(keep) is None ==> forall|j: int| !#[trigger] stock.free(keep, j),
{
    if exists|j: int| #[trigger] stock.free(keep, j) {
        let n = stock.entries.len() as int;
        let j = choose|j: int| #[trigger] stock.free(keep, j);
        assert(j < n && stock.free(keep, j));
        let i = lemma_oldest(stock, keep, n);
        assert(stock.oldest(keep, i));
    }
}

/// Whether every image takes some memory.
pub open spec fn solid(entries: Seq<Entry>) -> bool {
    forall|k: int| 0 <= k < entries.len() ==> (#[trigger] entries[k]).image.size() > 0
}

/// Memory that is asked for is freed: eviction goes on until it suffices, or until
/// every image that is left is held or to be kept.
pub proof fn law_eviction_goes_on_until_it_suffices(
    stock: Stock,
    keep: Option<usize>,
    bytes: int,
    freed: int,
)
    requires
        solid(stock.entries),
    ensures
        ({
            let (now, sum) = stock.evicted(keep, bytes, freed);
            sum >= bytes || forall|j: int| !#[trigger] now.free(keep, j)
        }),
        ({
            let (now, enough) = stock.evicted_for(keep, bytes);
            if enough {
                now.budget.available() >= bytes
            } else {
                forall|j: int| !#[trigger] now.free(keep, j)
            }
        }),
        ({
            let now = stock.trimmed(keep, bytes);
            entry_bytes(now.entries) <= bytes || forall|j: int| !#[trigger] now.free(keep, j)
        }),
    decreases stock.entries.len(),
{
    stock.lemma_victim(keep);
    lemma_victim_found(stock, keep);
    if let Some(i) = stock.victim(keep) {
        assert(stock.free(keep, i));
        let rest = stock.without(i);
        assert(rest.entries == stock.entries.remove(i));
        assert(solid(rest.entries)) by {
            assert forall|k: int| 0 <= k < rest.entries.len() implies (
            #[trigger] rest.entries[k]).image.size() > 0 by {
                assert(rest.entries[k] == stock.entries[if k < i {
                    k
                } else {
                    k + 1
                }]);
            }
        }
        let size = stock.entries[i].image.size();
        law_eviction_goes_on_until_it_suffices(rest, keep, bytes, freed + size);
        if freed < bytes {
            assert(size > 0);
            assert(stock.evicted(keep, bytes, freed) == rest.evicted(keep, bytes, freed + size));
        }
        if stock.budget.available() < bytes {
            assert(stock.evicted_for(keep, bytes) == rest.evicted_for(keep, bytes));
        }
        if entry_bytes(stock.entries) > bytes {
            assert(stock.trimmed(keep, bytes) == rest.trimmed(keep, bytes));
        }
    }
}

} // verus!
