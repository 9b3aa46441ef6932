use hero_proxy::cache::ResultCache;
use hero_proxy::coordinator::channel_lost_reply;
use hero_proxy::coordinator::dispatch_request;
use hero_proxy::coordinator::make_cache_key;
use hero_proxy::coordinator::reply_for_dispatch;
use hero_proxy::coordinator::reply_for_settled;
use hero_proxy::coordinator::settle_result;
use hero_proxy::coordinator::CacheMark;
use hero_proxy::coordinator::Dispatch;
use hero_proxy::coordinator::RequestKind;
use hero_proxy::coordinator::Settled;
use hero_proxy::coordinator::WorkerOutcome;
use hero_proxy::quality::TargetFormat;
use hero_proxy::queue::TaskQueue;

const FMT: TargetFormat = TargetFormat::WebP;

fn fresh() -> (ResultCache, TaskQueue) {
    (ResultCache::new(1 << 20, u64::MAX / 2, u64::MAX / 2), TaskQueue::new(100))
}

#[test]
fn identical_parameters_derive_identical_keys() {
    let k1 = make_cache_key(&b"http://a/i.jpg".to_vec(), 80, false, TargetFormat::WebP);
    let k2 = make_cache_key(&b"http://a/i.jpg".to_vec(), 80, false, TargetFormat::WebP);
    assert_eq!(k1, k2);
    // and any changed parameter changes the key
    assert_ne!(k1, make_cache_key(&b"http://a/j.jpg".to_vec(), 80, false, TargetFormat::WebP));
    assert_ne!(k1, make_cache_key(&b"http://a/i.jpg".to_vec(), 81, false, TargetFormat::WebP));
    assert_ne!(k1, make_cache_key(&b"http://a/i.jpg".to_vec(), 80, true, TargetFormat::WebP));
    assert_ne!(k1, make_cache_key(&b"http://a/i.jpg".to_vec(), 80, false, TargetFormat::Jxl));
}

#[test]
fn second_identical_request_is_served_as_a_hit_with_identical_bytes() {
    let (mut cache, mut queue) = fresh();
    let query = b"url=http%3A%2F%2Fa%2Fi.jpg&l=70&bw=1".to_vec();
    let d = dispatch_request(&mut cache, &mut queue, RequestKind::Query(query.clone()), FMT, 1);
    let key = match d {
        Dispatch::Submitted { ticket, key } => {
            assert_eq!(ticket, 0);
            key
        },
        _ => panic!("first request must queue a job"),
    };
    // the worker finishes and the result is settled into the cache
    let payload = vec![9u8, 8, 7, 6];
    let s = settle_result(&mut cache, key, WorkerOutcome::Produced { bytes: payload.clone() }, 2);
    match s {
        Settled::Delivered { body, cached } => {
            assert_eq!(body, payload);
            assert!(cached);
        },
        _ => panic!("produced bytes must be delivered"),
    }
    assert_eq!(cache.stats().misses, 1);
    // the identical second request is a pure hit with the same bytes
    let d = dispatch_request(&mut cache, &mut queue, RequestKind::Query(query), FMT, 3);
    match d {
        Dispatch::Hit { body } => assert_eq!(body, payload),
        _ => panic!("second request must hit"),
    }
    assert_eq!(cache.stats().hits, 1);
    assert_eq!(cache.stats().misses, 1);
    assert_eq!(queue.queued_count(), 1);
}

#[test]
fn malformed_requests_answer_the_sentinel_and_count_nothing() {
    let (mut cache, mut queue) = fresh();
    let d = dispatch_request(&mut cache, &mut queue, RequestKind::Bare, FMT, 1);
    assert!(matches!(d, Dispatch::Sentinel));
    let d = dispatch_request(&mut cache, &mut queue, RequestKind::Query(b"l=50".to_vec()), FMT, 1);
    assert!(matches!(d, Dispatch::Sentinel));
    let d = dispatch_request(&mut cache, &mut queue, RequestKind::Preflight, FMT, 1);
    assert!(matches!(d, Dispatch::Preflight));
    let s = cache.stats();
    assert_eq!((s.hits, s.misses), (0, 0));
    assert_eq!(queue.queued_count(), 0);
}

#[test]
fn full_queue_surfaces_back_pressure_to_the_request() {
    let mut cache = ResultCache::new(1 << 20, 1000, 1000);
    let mut queue = TaskQueue::new(1);
    let q1 = b"url=a".to_vec();
    let q2 = b"url=b".to_vec();
    let d = dispatch_request(&mut cache, &mut queue, RequestKind::Query(q1), FMT, 1);
    assert!(matches!(d, Dispatch::Submitted { .. }));
    let d = dispatch_request(&mut cache, &mut queue, RequestKind::Query(q2), FMT, 1);
    assert!(matches!(d, Dispatch::QueueFull));
    let r = reply_for_dispatch(d, FMT);
    assert_eq!(r.status, 500);
    assert_eq!(r.body, b"queue full".to_vec());
    // nothing was queued and nothing was counted
    assert_eq!(queue.queued_count(), 1);
    assert_eq!(cache.stats().misses, 0);
}

#[test]
fn hits_plus_misses_equals_requests_less_malformed() {
    let (mut cache, mut queue) = fresh();
    let mut served: u64 = 0;
    let mut malformed: u64 = 0;
    let queries: [&[u8]; 6] = [
        b"url=a",
        b"",
        b"url=a",
        b"url=b&l=9",
        b"bw=0",
        b"url=a",
    ];
    for q in queries {
        let d = dispatch_request(&mut cache, &mut queue, RequestKind::Query(q.to_vec()), FMT, 1);
        match d {
            Dispatch::Sentinel => malformed += 1,
            Dispatch::Hit { .. } => served += 1,
            Dispatch::Submitted { key, .. } => {
                let outcome = if q == &b"url=b&l=9"[..] {
                    WorkerOutcome::FetchFailed { message: b"boom".to_vec() }
                } else {
                    WorkerOutcome::Produced { bytes: vec![1, 2, 3] }
                };
                settle_result(&mut cache, key, outcome, 2);
                served += 1;
            },
            _ => panic!("unexpected dispatch"),
        }
    }
    let s = cache.stats();
    assert_eq!(malformed, 2);
    assert_eq!(s.hits + s.misses, 6 - malformed);
    assert_eq!(served + malformed, 6);
}

#[test]
fn unreachable_url_degrades_to_the_sentinel_without_a_miss() {
    let (mut cache, _queue) = fresh();
    let key = make_cache_key(&b"relative/path".to_vec(), 80, false, FMT);
    let s = settle_result(&mut cache, key, WorkerOutcome::UnreachableUrl, 1);
    assert!(matches!(s, Settled::SentinelFallback));
    assert_eq!(cache.stats().misses, 0);
    let r = reply_for_settled(s, FMT);
    assert_eq!(r.status, 200);
    assert_eq!(r.body, b"bandwidth-hero-proxy".to_vec());
}

#[test]
fn counted_failures_answer_500_with_the_error_text() {
    let (mut cache, _queue) = fresh();
    let key = make_cache_key(&b"u".to_vec(), 80, false, FMT);
    let s = settle_result(
        &mut cache,
        key,
        WorkerOutcome::CodecFailed { message: b"decode error".to_vec() },
        1,
    );
    let r = reply_for_settled(s, FMT);
    assert_eq!(r.status, 500);
    assert_eq!(r.body, b"decode error".to_vec());
    assert_eq!(cache.stats().misses, 1);
    let r = channel_lost_reply();
    assert_eq!(r.status, 500);
    assert_eq!(r.body, b"result channel closed".to_vec());
}

#[test]
fn oversized_payload_is_delivered_but_not_cached() {
    let mut cache = ResultCache::new(4, 1000, 1000);
    let mut queue = TaskQueue::new(10);
    let query = b"url=big".to_vec();
    let d = dispatch_request(&mut cache, &mut queue, RequestKind::Query(query.clone()), FMT, 1);
    let key = match d {
        Dispatch::Submitted { key, .. } => key,
        _ => panic!("expected a submission"),
    };
    let s = settle_result(
        &mut cache,
        key,
        WorkerOutcome::Produced { bytes: vec![1, 2, 3, 4, 5] },
        2,
    );
    match s {
        Settled::Delivered { body, cached } => {
            assert_eq!(body, vec![1, 2, 3, 4, 5]);
            assert!(!cached);
        },
        _ => panic!("expected delivery"),
    }
    assert_eq!(cache.stats().used_bytes, 0);
    // the reply still succeeds, with the MISS marker
    let d = dispatch_request(&mut cache, &mut queue, RequestKind::Query(query), FMT, 3);
    assert!(matches!(d, Dispatch::Submitted { .. }));
}

#[test]
fn concurrent_identical_misses_all_submit_without_deduplication() {
    // with an empty cache and no settle in between, every identical
    // request fetches again: the documented up-to-N amplification
    let (mut cache, mut queue) = fresh();
    for n in 0..5u64 {
        let d = dispatch_request(
            &mut cache,
            &mut queue,
            RequestKind::Query(b"url=same".to_vec()),
            FMT,
            1,
        );
        match d {
            Dispatch::Submitted { ticket, .. } => assert_eq!(ticket, n),
            _ => panic!("every identical miss submits its own job"),
        }
    }
    assert_eq!(queue.queued_count(), 5);
    // one settle later, the next identical request no longer fetches
    let key = make_cache_key(&b"same".to_vec(), 80, false, FMT);
    settle_result(&mut cache, key, WorkerOutcome::Produced { bytes: vec![1] }, 2);
    let d = dispatch_request(
        &mut cache,
        &mut queue,
        RequestKind::Query(b"url=same".to_vec()),
        FMT,
        3,
    );
    assert!(matches!(d, Dispatch::Hit { .. }));
}

#[test]
fn replies_carry_the_cache_marker_and_format() {
    let r = reply_for_dispatch(Dispatch::Hit { body: vec![1, 2] }, TargetFormat::Jxl);
    assert_eq!(r.status, 200);
    assert_eq!(r.body, vec![1, 2]);
    assert_eq!(r.image_format, Some(TargetFormat::Jxl));
    assert_eq!(r.cache_mark, Some(CacheMark::Hit));
    let r = reply_for_settled(
        Settled::Delivered { body: vec![3], cached: true },
        TargetFormat::WebP,
    );
    assert_eq!(r.cache_mark, Some(CacheMark::Miss));
    let r = reply_for_dispatch(Dispatch::Preflight, TargetFormat::WebP);
    assert_eq!(r.status, 200);
    assert!(r.body.is_empty());
}
