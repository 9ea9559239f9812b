use fastcull::image::cache::{DecodedCache, DecodedImage, MemoryBudget};
use fastcull::path::PhotoPath;

fn image(budget: &mut MemoryBudget, id: u64, bytes: usize) -> DecodedImage {
    let lease = budget.try_reserve(bytes).unwrap();
    DecodedImage::new(id, bytes, 1, 1, 1, 1, 1, lease, budget).unwrap()
}

fn path(name: &str) -> PhotoPath {
    PhotoPath::from_text(name)
}

#[test]
fn budget_wait_observes_a_release_before_waiting_without_a_lost_wakeup() {
    let mut budget = MemoryBudget::new(16);
    let lease = budget.try_reserve(16).unwrap();
    let epoch = budget.epoch();
    assert!(!budget.wait_for_change(epoch));
    budget.release(lease);
    assert!(budget.wait_for_change(epoch));
    assert_eq!(budget.available(), 16);
}

#[test]
fn budget_wait_ignores_notifications_until_the_epoch_changes() {
    let mut budget = MemoryBudget::new(16);
    let epoch = budget.epoch();
    for _ in 0..3 {
        assert!(!budget.wait_for_change(epoch));
    }
    // Navigation and cancellation wake a worker even without freeing bytes.
    budget.wake_waiters();
    assert!(budget.wait_for_change(epoch));
}

#[test]
fn leases_bound_total_and_follow_external_ownership() {
    let mut budget = MemoryBudget::new(100);
    let mut lease = budget.try_reserve(80).unwrap();
    assert!(budget.try_reserve(21).is_none());
    let split = lease.split_off(30).unwrap();
    assert_eq!(budget.used(), 80);
    budget.release(split);
    assert_eq!(budget.used(), 50);
    assert!(!lease.resize(&mut budget, 101));
    assert!(lease.resize(&mut budget, 100));
    budget.release(lease);
    assert_eq!(budget.used(), 0);
}

#[test]
fn leases_never_split_off_more_than_they_hold() {
    let mut budget = MemoryBudget::new(100);
    let mut lease = budget.try_reserve(10).unwrap();
    assert!(lease.split_off(11).is_none());
    assert_eq!(lease.bytes(), 10);
    assert_eq!(lease.split_off(10).unwrap().bytes(), 10);
    assert_eq!(lease.bytes(), 0);
    assert_eq!(budget.limit(), 100);
}

#[test]
fn pixels_beyond_their_lease_are_refused() {
    let mut budget = MemoryBudget::new(10);
    let lease = budget.try_reserve(8).unwrap();
    let grown = DecodedImage::new(1, 9, 1, 1, 1, 1, 1, lease, &mut budget).unwrap();
    assert_eq!(grown.bytes(), 9);
    assert_eq!(budget.used(), 9);
    budget.release(grown.lease);
    let lease = budget.try_reserve(8).unwrap();
    let refused = DecodedImage::new(1, 11, 1, 1, 1, 1, 1, lease, &mut budget);
    assert_eq!(
        refused.unwrap_err(),
        "decoded allocation exceeded reserved memory"
    );
    assert_eq!(budget.used(), 0);
}

#[test]
fn lru_evicts_oldest_unheld_image_and_protects_current() {
    let mut budget = MemoryBudget::new(100);
    let mut cache = DecodedCache::new();
    let first = image(&mut budget, 10, 20);
    cache.insert(0, first, false, &mut budget);
    let second = image(&mut budget, 11, 20);
    cache.insert(1, second, true, &mut budget);
    let third = image(&mut budget, 12, 20);
    cache.insert(2, third, true, &mut budget);
    let held = cache.get(0).unwrap();
    assert_eq!(held, 10);
    assert!(cache.evict_for(60, Some(2), &mut budget));
    assert!(!cache.contains(1));
    assert!(cache.contains(0));
    assert!(cache.contains(2));
    assert_eq!(cache.evict_all_except(Some(2), &mut budget), 0);
    cache.let_go(held, &mut budget);
    assert_eq!(cache.evict_all_except(Some(2), &mut budget), 20);
    assert_eq!(budget.used(), 20);
    assert!(cache.take_prefetched(2));
    assert!(!cache.take_prefetched(2));
    cache.clear(&mut budget);
    assert_eq!(budget.used(), 0);
}

#[test]
fn rekey_preserves_pixels_leases_prefetch_flags_and_lru_order() {
    let mut budget = MemoryBudget::new(100);
    let mut cache = DecodedCache::new();
    let old = vec![path("a.ARW"), path("b.ARW"), path("c.ARW")];
    let a = image(&mut budget, 10, 10);
    cache.insert(0, a, false, &mut budget);
    let b = image(&mut budget, 11, 20);
    cache.insert(1, b, true, &mut budget);
    let c = image(&mut budget, 12, 30);
    cache.insert(2, c, true, &mut budget);
    let removed_but_held = cache.get(0).unwrap();
    // B is most recently used; C must be evicted first.
    let b = cache.get(1).unwrap();
    cache.let_go(b, &mut budget);
    let touched = |cache: &DecodedCache, index: usize| {
        cache.entries.iter().find(|entry| entry.index == index).unwrap().touched
    };
    let id = |cache: &DecodedCache, index: usize| {
        cache.entries.iter().find(|entry| entry.index == index).unwrap().image.id
    };
    let before = [touched(&cache, 1), touched(&cache, 2)];
    let clock = cache.clock;
    let new = vec![path("c.ARW"), path("b.ARW")];
    cache.rekey(&old, &new, &mut budget);
    assert_eq!(cache.entries.len(), 2);
    assert_eq!(id(&cache, 0), 12);
    assert_eq!(id(&cache, 1), 11);
    assert_eq!([touched(&cache, 1), touched(&cache, 0)], before);
    assert_eq!(cache.clock, clock);
    assert_eq!(cache.bytes(), 50);
    // Removing the cache entry cannot pretend that an upload has ended.
    assert_eq!(budget.used(), 60);
    cache.let_go(removed_but_held, &mut budget);
    assert_eq!(budget.used(), 50);
    assert!(cache.take_prefetched(0));
    assert!(cache.take_prefetched(1));
    assert_eq!(cache.evict_bytes(1, None, &mut budget), 30);
    assert!(!cache.contains(0));
    assert!(cache.contains(1));
    assert_eq!(budget.used(), 20);
    cache.rekey(&new, &Vec::new(), &mut budget);
    assert_eq!(budget.used(), 0);
}

#[test]
fn rekey_drops_other_folders_and_invalid_old_indices() {
    let mut budget = MemoryBudget::new(32);
    let mut cache = DecodedCache::new();
    let first = image(&mut budget, 1, 8);
    cache.insert(0, first, false, &mut budget);
    let second = image(&mut budget, 2, 8);
    cache.insert(99, second, false, &mut budget);
    cache.rekey(
        &vec![path("old/DSC00001.ARW")],
        &vec![path("new/DSC00001.ARW")],
        &mut budget,
    );
    assert_eq!(cache.bytes(), 0);
    assert_eq!(budget.used(), 0);
}

#[test]
fn speculation_makes_room_for_nearer_photographs_only() {
    let mut budget = MemoryBudget::new(60);
    let mut cache = DecodedCache::new();
    for (index, id) in [(5, 1), (6, 2), (7, 3)] {
        let next = image(&mut budget, id, 20);
        cache.insert(index, next, true, &mut budget);
    }
    // Nothing is less urgent than the last of the plan.
    assert_eq!(cache.evict_lower_priority(&vec![5, 6, 7], 7, &mut budget), 0);
    let freed = cache.evict_lower_priority(&vec![4, 5, 6, 7], 4, &mut budget);
    assert_eq!(freed, 20);
    assert!(!cache.contains(7));
    assert!(cache.contains(5));
}

#[test]
fn leases_account_for_what_is_used() {
    let mut budget = MemoryBudget::new(100);
    let mut a = budget.try_reserve(40).unwrap();
    let b = budget.try_reserve(30).unwrap();
    let c = a.split_off(15).unwrap();
    assert_eq!(budget.used(), a.bytes() + b.bytes() + c.bytes());
    assert!(a.resize(&mut budget, 5));
    assert!(!a.resize(&mut budget, 1000));
    assert!(a.resize(&mut budget, 55));
    assert_eq!(budget.used(), a.bytes() + b.bytes() + c.bytes());
    assert_eq!(budget.used(), 100);
    budget.wake_waiters();
    budget.release(b);
    assert_eq!(budget.used(), a.bytes() + c.bytes());
    budget.release(a);
    budget.release(c);
    assert_eq!(budget.used(), 0);
}

#[test]
fn every_release_shrink_and_wake_lets_a_waiter_go_on() {
    let mut budget = MemoryBudget::new(100);
    let mut a = budget.try_reserve(40).unwrap();
    let b = budget.try_reserve(30).unwrap();
    let seen = budget.epoch();
    assert!(budget.try_reserve(40).is_none());
    assert!(!budget.wait_for_change(seen));
    assert!(a.resize(&mut budget, 60));
    assert!(!budget.wait_for_change(seen));
    assert!(a.resize(&mut budget, 59));
    assert!(budget.wait_for_change(seen));
    let seen = budget.epoch();
    budget.release(b);
    let later = budget.try_reserve(1).unwrap();
    assert!(budget.wait_for_change(seen));
    let seen = budget.epoch();
    budget.wake_waiters();
    assert!(budget.wait_for_change(seen));
    budget.release(a);
    budget.release(later);
}

#[test]
fn a_mark_is_taken_once_whatever_stands_between() {
    let mut budget = MemoryBudget::new(1000);
    let mut cache = DecodedCache::new();
    let put = |cache: &mut DecodedCache, budget: &mut MemoryBudget, index: usize, ahead: bool| {
        let lease = budget.try_reserve(10).unwrap();
        let image =
            DecodedImage::new(index as u64, 10, 1, 1, 1, 1, 1, lease, budget).unwrap();
        cache.insert(index, image, ahead, budget);
    };
    put(&mut cache, &mut budget, 1, true);
    put(&mut cache, &mut budget, 2, false);
    assert_eq!(cache.get(1), Some(1));
    put(&mut cache, &mut budget, 3, true);
    assert!(cache.take_prefetched(3));
    cache.remove(3, &mut budget);
    cache.let_go(1, &mut budget);
    assert!(cache.take_prefetched(1));
    assert_eq!(cache.get(1), Some(1));
    assert!(!cache.take_prefetched(1));
    assert!(!cache.take_prefetched(2));
    assert!(!cache.take_prefetched(3));
    put(&mut cache, &mut budget, 1, true);
    assert!(cache.take_prefetched(1));
    assert!(!cache.take_prefetched(1));
}
