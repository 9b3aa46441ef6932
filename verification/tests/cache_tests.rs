use hero_proxy::cache::InsertOutcome;
use hero_proxy::cache::ResultCache;

fn key(n: u8) -> Vec<u8> {
    vec![n, n, n]
}

fn blob(len: usize, fill: u8) -> Vec<u8> {
    vec![fill; len]
}

#[test]
fn used_bytes_tracks_sum_of_resident_entries() {
    let mut c = ResultCache::new(100, u64::MAX / 2, u64::MAX / 2);
    assert_eq!(c.stats().used_bytes, 0);
    let r = c.insert(key(1), blob(40, 1), 10);
    assert!(r.accepted());
    assert_eq!(c.stats().used_bytes, 40);
    assert_eq!(c.stats().entry_count, 1);
    let r = c.insert(key(2), blob(30, 2), 11);
    assert!(r.accepted());
    assert_eq!(c.stats().used_bytes, 70);
    assert_eq!(c.stats().entry_count, 2);
    // this one forces the oldest entry out: 70 + 50 > 100
    let r = c.insert(key(3), blob(50, 3), 12);
    assert_eq!(r, InsertOutcome::Accepted { evicted: 1 });
    assert_eq!(c.stats().used_bytes, 30 + 50);
    assert_eq!(c.stats().entry_count, 2);
    // the evicted key is gone, the others still resident
    assert!(c.lookup(&key(1), 13).is_none());
    assert_eq!(c.lookup(&key(2), 13).unwrap(), blob(30, 2));
    assert_eq!(c.lookup(&key(3), 13).unwrap(), blob(50, 3));
}

#[test]
fn oversized_item_is_rejected_without_any_change() {
    let mut c = ResultCache::new(64, 1000, 1000);
    assert!(c.insert(key(1), blob(10, 1), 0).accepted());
    let before = c.stats();
    let r = c.insert(key(2), blob(65, 2), 1);
    assert_eq!(r, InsertOutcome::RejectedTooLarge);
    let after = c.stats();
    assert_eq!(before.used_bytes, after.used_bytes);
    assert_eq!(before.entry_count, after.entry_count);
    assert!(c.lookup(&key(2), 2).is_none());
}

#[test]
fn item_exactly_at_capacity_is_accepted() {
    let mut c = ResultCache::new(64, 1000, 1000);
    let r = c.insert(key(1), blob(64, 9), 0);
    assert_eq!(r, InsertOutcome::Accepted { evicted: 0 });
    assert_eq!(c.stats().used_bytes, 64);
}

#[test]
fn eviction_never_leaves_used_bytes_over_capacity() {
    let mut c = ResultCache::new(100, u64::MAX / 2, u64::MAX / 2);
    let mut t: u64 = 0;
    for n in 0..20u8 {
        t += 1;
        let r = c.insert(vec![n], blob(7 + n as usize, n), t);
        if r.accepted() {
            assert!(c.stats().used_bytes <= c.stats().capacity_bytes);
        }
    }
    assert!(c.stats().used_bytes <= 100);
}

#[test]
fn bounded_eviction_pass_can_reject_a_large_item() {
    // ten tiny entries; a large item that would need more than five
    // evictions is rejected, but the pass's evictions stand
    let mut c = ResultCache::new(100, u64::MAX / 2, u64::MAX / 2);
    for n in 0..10u8 {
        assert!(c.insert(vec![n], blob(10, n), n as u64).accepted());
    }
    assert_eq!(c.stats().used_bytes, 100);
    let r = c.insert(key(99), blob(60, 9), 100);
    assert_eq!(r, InsertOutcome::RejectedNoRoom { evicted: 5 });
    assert_eq!(c.stats().used_bytes, 50);
    assert!(c.lookup(&key(99), 101).is_none());
}

#[test]
fn duplicate_key_insert_is_idempotent_first_write_wins() {
    let mut c = ResultCache::new(100, 1000, 1000);
    assert!(c.insert(key(1), blob(10, 1), 0).accepted());
    let r = c.insert(key(1), blob(20, 2), 1);
    assert_eq!(r, InsertOutcome::AlreadyPresent);
    // usedBytes is not corrupted by the second insert
    assert_eq!(c.stats().used_bytes, 10);
    assert_eq!(c.lookup(&key(1), 2).unwrap(), blob(10, 1));
}

#[test]
fn lookup_returns_byte_identical_payload() {
    let mut c = ResultCache::new(100, 1000, 1000);
    let payload = vec![0u8, 255, 17, 3, 99];
    assert!(c.insert(key(7), payload.clone(), 5).accepted());
    assert_eq!(c.lookup(&key(7), 6).unwrap(), payload);
    assert!(c.lookup(&key(8), 6).is_none());
}

#[test]
fn counters_are_recorded_monotonically() {
    let mut c = ResultCache::new(100, 1000, 1000);
    c.record_hit();
    c.record_hit();
    c.record_miss();
    let s = c.stats();
    assert_eq!(s.hits, 2);
    assert_eq!(s.misses, 1);
}

#[test]
fn used_bytes_matches_a_shadow_model_over_a_mixed_sequence() {
    // a deterministic pseudo-random sequence of inserts, repeats and
    // purges, mirrored in a plain list: usedBytes must equal the sum of
    // the resident entries' sizes after every operation
    let mut c = ResultCache::new(500, 64, 32);
    let mut shadow: Vec<(Vec<u8>, usize, u64, u64)> = Vec::new();
    let mut rng: u64 = 0x2545F4914F6CDD1D;
    for step in 0..200u64 {
        rng = rng.wrapping_mul(6364136223846793005).wrapping_add(1442695040888963407);
        let now = step;
        let choice = (rng >> 33) % 10;
        if choice < 7 {
            let k = vec![((rng >> 17) % 12) as u8];
            let len = ((rng >> 9) % 120) as usize;
            let r = c.insert(k.clone(), blob(len, 1), now);
            match r {
                InsertOutcome::Accepted { evicted } => {
                    for _ in 0..evicted {
                        shadow.remove(0);
                    }
                    shadow.push((k, len, now, now));
                }
                InsertOutcome::AlreadyPresent => {}
                InsertOutcome::RejectedTooLarge => {}
                InsertOutcome::RejectedNoRoom { evicted } => {
                    for _ in 0..evicted {
                        shadow.remove(0);
                    }
                }
            }
        } else if choice < 9 {
            let k = vec![((rng >> 17) % 12) as u8];
            if c.lookup(&k, now).is_some() {
                for e in shadow.iter_mut() {
                    if e.0 == k {
                        e.3 = now;
                    }
                }
            }
        } else {
            c.purge_expired(now);
            shadow.retain(|e| !(e.2 + 64 <= now || e.3 + 32 <= now));
        }
        let expected: u64 = shadow.iter().map(|e| e.1 as u64).sum();
        let s = c.stats();
        assert_eq!(s.used_bytes, expected, "diverged at step {}", step);
        assert_eq!(s.entry_count, shadow.len());
        assert!(s.used_bytes <= s.capacity_bytes);
    }
}

#[test]
fn entries_expire_by_age_and_by_idleness() {
    let mut c = ResultCache::new(1000, 100, 50);
    assert!(c.insert(key(1), blob(10, 1), 0).accepted());
    assert!(c.insert(key(2), blob(10, 2), 30).accepted());
    // at t=60: key 1 idle for 60 >= 50, key 2 idle for 30
    let removed = c.purge_expired(60);
    assert_eq!(removed, 1);
    assert!(c.lookup(&key(1), 60).is_none());
    assert!(c.lookup(&key(2), 60).is_some());
    assert_eq!(c.stats().used_bytes, 10);
    // the lookup above refreshed key 2; at t=130 its age 100 >= 100
    let removed = c.purge_expired(130);
    assert_eq!(removed, 1);
    assert_eq!(c.stats().entry_count, 0);
    assert_eq!(c.stats().used_bytes, 0);
}
