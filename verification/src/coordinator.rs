//! The per-request coordination: deriving the cache key, the cache lookup,
//! the queue submission on a miss, the settling of a worker's result, and
//! the exact hit/miss accounting. The surrounding binary performs the I/O
//! and calls these decision functions with plain values.

use vstd::prelude::*;
use crate::cache::InsertOutcome;
use crate::cache::ResultCache;
use crate::cache::cached_bytes;
use crate::cache::has_key;
use crate::params::parse_query;
use crate::params::parse_query_spec;
use crate::quality::TargetFormat;
use crate::queue::TaskQueue;

verus! {

/// The byte that tags each target format inside a cache key.
pub open spec fn format_byte_spec(f: TargetFormat) -> u8 {
    match f {
        TargetFormat::WebP => 119u8,
        TargetFormat::Avif => 97u8,
        TargetFormat::Jxl => 106u8,
    }
}

/// The deterministic cache key of a job: a fixed-width header of format
/// tag, quality and color flag, then the source URL. The fixed-width
/// header makes the derivation injective.
pub open spec fn cache_key_spec(
    url: Seq<u8>,
    quality: u8,
    keep_color: bool,
    format: TargetFormat,
) -> Seq<u8> {
    seq![
        format_byte_spec(format),
        quality,
        (if keep_color {
            1u8
        } else {
            0u8
        }),
    ] + url
}

/// Two parameter tuples derive the same cache key exactly when they are
/// the same parameters, so a cache hit always carries the payload encoded
/// for precisely the requested URL, quality, color option and format.
pub proof fn lemma_cache_key_injective(
    u1: Seq<u8>,
    q1: u8,
    c1: bool,
    f1: TargetFormat,
    u2: Seq<u8>,
    q2: u8,
    c2: bool,
    f2: TargetFormat,
)
    requires
        cache_key_spec(u1, q1, c1, f1) == cache_key_spec(u2, q2, c2, f2),
    ensures
        u1 == u2,
        q1 == q2,
        c1 == c2,
        f1 == f2,
{
    let k1 = cache_key_spec(u1, q1, c1, f1);
    let k2 = cache_key_spec(u2, q2, c2, f2);
    assert(k1[0] == format_byte_spec(f1) && k2[0] == format_byte_spec(f2));
    assert(k1[1] == q1 && k2[1] == q2);
    assert(k1[2] == (if c1 {
        1u8
    } else {
        0u8
    }) && k2[2] == (if c2 {
        1u8
    } else {
        0u8
    }));
    assert(u1.len() == k1.len() - 3 && u2.len() == k2.len() - 3);
    assert forall|i: int| 0 <= i < u1.len() implies u1[i] == u2[i] by {
        assert(k1[i + 3] == u1[i]);
        assert(k2[i + 3] == u2[i]);
    }
    assert(u1 =~= u2);
}

/// Builds the cache key of a job.
pub fn make_cache_key(url: &Vec<u8>, quality: u8, keep_color: bool, format: TargetFormat) -> (k:
    Vec<u8>)
    ensures
        k@ == cache_key_spec(url@, quality, keep_color, format),
{
    let mut k: Vec<u8> = Vec::new();
    let tag: u8 = match format {
        TargetFormat::WebP => 119,
        TargetFormat::Avif => 97,
        TargetFormat::Jxl => 106,
    };
    k.push(tag);
    k.push(quality);
    k.push(if keep_color {
        1
    } else {
        0
    });
    let mut i: usize = 0;
    while i < url.len()
        invariant
            i <= url@.len(),
            k@.len() == 3 + i,
            k@[0] == format_byte_spec(format),
            k@[1] == quality,
            k@[2] == (if keep_color {
                1u8
            } else {
                0u8
            }),
            forall|j: int| 0 <= j < i ==> k@[3 + j] == url@[j],
        decreases url@.len() - i,
    {
        k.push(url[i]);
        i = i + 1;
    }
    proof {
        assert(k@ =~= cache_key_spec(url@, quality, keep_color, format));
    }
    k
}

/// What an inbound request is, after the HTTP layer has read it: a CORS
/// preflight, a bare root request without a query, or a query string.
pub enum RequestKind {
    Preflight,
    Bare,
    Query(Vec<u8>),
}

/// What the coordinator decided for one inbound request.
pub enum Dispatch {
    /// `OPTIONS` short-circuits with an empty body and CORS headers.
    Preflight,
    /// No query or no usable source URL: the fixed identification body,
    /// with success status — never counted as a hit or a miss.
    Sentinel,
    /// The cache had the payload; the hit is counted.
    Hit { body: Vec<u8> },
    /// A job was queued under `ticket`; the caller waits for the worker
    /// and settles with `key` afterwards.
    Submitted { ticket: u64, key: Vec<u8> },
    /// The queue was full: back-pressure is surfaced, nothing was queued
    /// and nothing is counted.
    QueueFull,
}

/// The parameters a query string names, with the derived cache key.
pub open spec fn query_key_spec(q: Seq<u8>, format: TargetFormat) -> Seq<u8> {
    cache_key_spec(
        parse_query_spec(q).0,
        parse_query_spec(q).1,
        !parse_query_spec(q).2,
        format,
    )
}

/// Handles one inbound request up to the point where I/O would begin:
/// answers preflights and malformed requests directly, serves cache hits,
/// and queues a job for a miss unless the queue is full.
pub fn dispatch_request(
    cache: &mut ResultCache,
    queue: &mut TaskQueue,
    req: RequestKind,
    format: TargetFormat,
    now: u64,
) -> (d: Dispatch)
    requires
        old(cache).wf(),
        old(queue).wf(),
        old(cache).hits < u64::MAX,
        old(queue).next_ticket < u64::MAX,
    ensures
        final(cache).wf(),
        final(queue).wf(),
        final(cache).capacity_bytes == old(cache).capacity_bytes,
        final(cache).misses == old(cache).misses,
        final(cache).used_bytes == old(cache).used_bytes,
        final(queue).capacity == old(queue).capacity,
        // a preflight or malformed request touches nothing and counts as
        // neither hit nor miss
        req is Preflight ==> d is Preflight && *final(cache) == *old(cache) && *final(queue)
            == *old(queue),
        req is Bare ==> d is Sentinel && *final(cache) == *old(cache) && *final(queue) == *old(queue),
        (req matches RequestKind::Query(q) ==> {
            let params = parse_query_spec(q@);
            let key = query_key_spec(q@, format);
            &&& (params.0.len() == 0 ==> d is Sentinel && *final(cache) == *old(cache) && *final(queue) == *old(queue))
            &&& (params.0.len() > 0 && has_key(old(cache).entries@, key) ==> {
                &&& (d matches Dispatch::Hit { body } ==> body@ == cached_bytes(
                    old(cache).entries@,
                    key,
                ))
                &&& d is Hit
                &&& final(cache).hits == old(cache).hits + 1
                &&& *final(queue) == *old(queue)
            })
            &&& (params.0.len() > 0 && !has_key(old(cache).entries@, key) ==> {
                &&& final(cache).hits == old(cache).hits
                &&& final(cache).entries@ == old(cache).entries@
                &&& (old(queue).jobs@.len() == old(queue).capacity ==> d is QueueFull && *final(queue) == *old(queue))
                &&& (old(queue).jobs@.len() < old(queue).capacity ==> {
                    &&& (d matches Dispatch::Submitted { ticket, key: k } ==> {
                        &&& ticket == old(queue).next_ticket
                        &&& k@ == key
                        &&& final(queue).jobs@.len() == old(queue).jobs@.len() + 1
                        &&& final(queue).jobs@.drop_last() =~= old(queue).jobs@
                        &&& final(queue).jobs@.last().url@ == params.0
                        &&& final(queue).jobs@.last().quality == params.1
                        &&& final(queue).jobs@.last().keep_color == !params.2
                        &&& final(queue).jobs@.last().format == format
                        &&& final(queue).jobs@.last().ticket == ticket
                    })
                    &&& d is Submitted
                })
            })
        }),
{
    match req {
        RequestKind::Preflight => Dispatch::Preflight,
        RequestKind::Bare => Dispatch::Sentinel,
        RequestKind::Query(q) => {
            let params = parse_query(&q);
            if params.url.len() == 0 {
                return Dispatch::Sentinel;
            }
            let keep_color = !params.grayscale;
            let key = make_cache_key(&params.url, params.quality, keep_color, format);
            match cache.lookup(&key, now) {
                Some(body) => {
                    cache.record_hit();
                    Dispatch::Hit { body }
                },
                None => {
                    match queue.submit(params.url, params.quality, keep_color, format) {
                        Some(ticket) => Dispatch::Submitted { ticket, key },
                        None => Dispatch::QueueFull,
                    }
                },
            }
        },
    }
}

/// What the worker's processing of one job came to, handed back by the
/// binary that performed the fetch and the encode.
pub enum WorkerOutcome {
    /// Fetch and transcode succeeded; these are the encoded bytes.
    Produced { bytes: Vec<u8> },
    /// The fetch failed because the URL was unparsable or relative; such a
    /// request degrades to the identification body and counts as neither
    /// hit nor miss.
    UnreachableUrl,
    /// The fetch failed on the network or with an upstream error status.
    FetchFailed { message: Vec<u8> },
    /// The decode or encode failed.
    CodecFailed { message: Vec<u8> },
}

/// The coordinator's answer for a settled job.
pub enum Settled {
    /// The payload to return; `cached` says whether the insert was
    /// accepted, which is informational only.
    Delivered { body: Vec<u8>, cached: bool },
    /// The unparsable-URL degradation: the identification body, success
    /// status, no miss counted.
    SentinelFallback,
    /// A counted failure, reported with the error text.
    Failed { message: Vec<u8> },
}

/// Settles one completed job: caches the payload (best effort), counts the
/// miss exactly once for every processed request, and classifies
/// failures.
pub fn settle_result(cache: &mut ResultCache, key: Vec<u8>, outcome: WorkerOutcome, now: u64) -> (s:
    Settled)
    requires
        old(cache).wf(),
        old(cache).misses < u64::MAX,
    ensures
        final(cache).wf(),
        final(cache).capacity_bytes == old(cache).capacity_bytes,
        final(cache).hits == old(cache).hits,
        // the miss counter moves exactly once, and only for processing
        // that ran to success or to a counted failure
        (outcome is Produced || outcome is FetchFailed || outcome is CodecFailed) ==> final(cache).misses == old(cache).misses + 1,
        outcome is UnreachableUrl ==> *final(cache) == *old(cache) && s is SentinelFallback,
        (outcome matches WorkerOutcome::Produced { bytes } ==> {
            &&& (s matches Settled::Delivered { body, cached } ==> {
                &&& body@ == bytes@
                &&& (cached ==> has_key(final(cache).entries@, key@))
                &&& (cached && !has_key(old(cache).entries@, key@) ==> cached_bytes(
                    final(cache).entries@,
                    key@,
                ) == bytes@)
                &&& (bytes@.len() > old(cache).capacity_bytes ==> !cached && final(cache).used_bytes == old(cache).used_bytes)
                &&& (bytes@.len() + old(cache).used_bytes <= old(cache).capacity_bytes
                    ==> cached)
                &&& final(cache).used_bytes <= final(cache).capacity_bytes
            })
            &&& s is Delivered
        }),
        (outcome matches WorkerOutcome::FetchFailed { message } ==> (s matches Settled::Failed {
            message: m,
        } ==> m@ == message@) && s is Failed && final(cache).entries@ == old(cache).entries@),
        (outcome matches WorkerOutcome::CodecFailed { message } ==> (s matches Settled::Failed {
            message: m,
        } ==> m@ == message@) && s is Failed && final(cache).entries@ == old(cache).entries@),
{
    match outcome {
        WorkerOutcome::Produced { bytes } => {
            let body = crate::cache::clone_bytes(&bytes);
            let r = cache.insert(key, bytes, now);
            cache.record_miss();
            let cached = match r {
                InsertOutcome::Accepted { .. } => true,
                InsertOutcome::AlreadyPresent => true,
                _ => false,
            };
            Settled::Delivered { body, cached }
        },
        WorkerOutcome::UnreachableUrl => Settled::SentinelFallback,
        WorkerOutcome::FetchFailed { message } => {
            cache.record_miss();
            Settled::Failed { message }
        },
        WorkerOutcome::CodecFailed { message } => {
            cache.record_miss();
            Settled::Failed { message }
        },
    }
}

/// The bytes of the fixed identification body that answers malformed
/// requests and root pings.
pub open spec fn sentinel_bytes() -> Seq<u8> {
    seq![
        98u8, 97u8, 110u8, 100u8, 119u8, 105u8, 100u8, 116u8, 104u8, 45u8, 104u8, 101u8,
        114u8, 111u8, 45u8, 112u8, 114u8, 111u8, 120u8, 121u8,
    ]
}

/// The identification body, `bandwidth-hero-proxy`.
pub fn sentinel_body() -> (b: Vec<u8>)
    ensures
        b@ == sentinel_bytes(),
{
    let mut b: Vec<u8> = vec![
        98u8, 97u8, 110u8, 100u8, 119u8, 105u8, 100u8, 116u8, 104u8, 45u8, 104u8, 101u8,
        114u8, 111u8, 45u8, 112u8, 114u8, 111u8, 120u8, 121u8,
    ];
    proof {
        assert(b@ =~= sentinel_bytes());
    }
    b
}

/// The bytes of the back-pressure error body, `queue full`.
pub open spec fn queue_full_bytes() -> Seq<u8> {
    seq![113u8, 117u8, 101u8, 117u8, 101u8, 32u8, 102u8, 117u8, 108u8, 108u8]
}

/// The bytes of the internal-channel-failure error body, `result channel
/// closed`.
pub open spec fn channel_closed_bytes() -> Seq<u8> {
    seq![
        114u8, 101u8, 115u8, 117u8, 108u8, 116u8, 32u8, 99u8, 104u8, 97u8, 110u8, 110u8,
        101u8, 108u8, 32u8, 99u8, 108u8, 111u8, 115u8, 101u8, 100u8,
    ]
}

/// The cache marker carried in the `X-Cache` response header.
#[derive(Clone, Copy, PartialEq, Eq, Structural, Debug)]
pub enum CacheMark {
    Hit,
    Miss,
}

/// One HTTP response, as plain values: the status code, the body, the
/// image MIME type when the body is a payload, and the `X-Cache` marker
/// when one applies. Every response additionally carries the CORS headers
/// and a `Content-Length` of the body, which the HTTP layer derives.
pub struct Reply {
    pub status: u16,
    pub body: Vec<u8>,
    pub image_format: Option<TargetFormat>,
    pub cache_mark: Option<CacheMark>,
}

/// The response for a dispatch that did not queue a job: preflights and
/// sentinels answer 200, a hit answers 200 with the payload and `X-Cache:
/// HIT`, and back-pressure answers 500 with the `queue full` body.
pub fn reply_for_dispatch(d: Dispatch, format: TargetFormat) -> (r: Reply)
    requires
        !(d is Submitted),
    ensures
        d is Preflight ==> r.status == 200 && r.body@.len() == 0 && r.image_format is None
            && r.cache_mark is None,
        d is Sentinel ==> r.status == 200 && r.body@ == sentinel_bytes() && r.image_format is None
            && r.cache_mark is None,
        (d matches Dispatch::Hit { body } ==> r.status == 200 && r.body@ == body@
            && r.image_format == Some(format) && r.cache_mark == Some(CacheMark::Hit)),
        d is QueueFull ==> r.status == 500 && r.body@ == queue_full_bytes() && r.image_format
            is None && r.cache_mark is None,
{
    match d {
        Dispatch::Preflight => Reply {
            status: 200,
            body: Vec::new(),
            image_format: None,
            cache_mark: None,
        },
        Dispatch::Sentinel => Reply {
            status: 200,
            body: sentinel_body(),
            image_format: None,
            cache_mark: None,
        },
        Dispatch::Hit { body } => Reply {
            status: 200,
            body,
            image_format: Some(format),
            cache_mark: Some(CacheMark::Hit),
        },
        Dispatch::Submitted { .. } => Reply {
            status: 500,
            body: Vec::new(),
            image_format: None,
            cache_mark: None,
        },
        Dispatch::QueueFull => {
            let mut b: Vec<u8> = vec![
                113u8, 117u8, 101u8, 117u8, 101u8, 32u8, 102u8, 117u8, 108u8, 108u8,
            ];
            proof {
                assert(b@ =~= queue_full_bytes());
            }
            Reply { status: 500, body: b, image_format: None, cache_mark: None }
        },
    }
}

/// The response for a settled job: a delivered payload answers 200 with
/// `X-Cache: MISS`, the unparsable-URL degradation answers the sentinel
/// with 200, and a counted failure answers 500 with the error text.
pub fn reply_for_settled(s: Settled, format: TargetFormat) -> (r: Reply)
    ensures
        (s matches Settled::Delivered { body, cached } ==> r.status == 200 && r.body@ == body@
            && r.image_format == Some(format) && r.cache_mark == Some(CacheMark::Miss)),
        s is SentinelFallback ==> r.status == 200 && r.body@ == sentinel_bytes() && r.image_format
            is None && r.cache_mark is None,
        (s matches Settled::Failed { message } ==> r.status == 500 && r.body@ == message@
            && r.image_format is None && r.cache_mark is None),
{
    match s {
        Settled::Delivered { body, cached: _ } => Reply {
            status: 200,
            body,
            image_format: Some(format),
            cache_mark: Some(CacheMark::Miss),
        },
        Settled::SentinelFallback => Reply {
            status: 200,
            body: sentinel_body(),
            image_format: None,
            cache_mark: None,
        },
        Settled::Failed { message } => Reply {
            status: 500,
            body: message,
            image_format: None,
            cache_mark: None,
        },
    }
}

/// The response when a job's one-shot result channel was abandoned: an
/// internal failure fatal to this request alone, counted as neither hit
/// nor miss.
pub fn channel_lost_reply() -> (r: Reply)
    ensures
        r.status == 500,
        r.body@ == channel_closed_bytes(),
        r.image_format is None,
        r.cache_mark is None,
{
    let mut b: Vec<u8> = vec![
        114u8, 101u8, 115u8, 117u8, 108u8, 116u8, 32u8, 99u8, 104u8, 97u8, 110u8, 110u8,
        101u8, 108u8, 32u8, 99u8, 108u8, 111u8, 115u8, 101u8, 100u8,
    ];
    proof {
        assert(b@ =~= channel_closed_bytes());
    }
    Reply { status: 500, body: b, image_format: None, cache_mark: None }
}

/// How one finished request touched the hit and miss counters. A served
/// hit comes from `dispatch_request`; a completion or counted failure
/// comes from `settle_result`; a malformed request (the sentinel answer),
/// rejected back-pressure and a lost channel touch neither counter.
#[derive(Clone, Copy, PartialEq, Eq, Structural, Debug)]
pub enum RequestClass {
    Malformed,
    ServedHit,
    Completed,
    FailedCounted,
}

pub open spec fn hits_delta(c: RequestClass) -> int {
    if c is ServedHit {
        1
    } else {
        0
    }
}

pub open spec fn misses_delta(c: RequestClass) -> int {
    if c is Completed || c is FailedCounted {
        1
    } else {
        0
    }
}

pub open spec fn total_hits(cs: Seq<RequestClass>) -> int
    decreases cs.len(),
{
    if cs.len() == 0 {
        0
    } else {
        total_hits(cs.drop_last()) + hits_delta(cs.last())
    }
}

pub open spec fn total_misses(cs: Seq<RequestClass>) -> int
    decreases cs.len(),
{
    if cs.len() == 0 {
        0
    } else {
        total_misses(cs.drop_last()) + misses_delta(cs.last())
    }
}

pub open spec fn malformed_count(cs: Seq<RequestClass>) -> int
    decreases cs.len(),
{
    if cs.len() == 0 {
        0
    } else {
        malformed_count(cs.drop_last()) + (if cs.last() is Malformed {
            1int
        } else {
            0int
        })
    }
}

/// The exact accounting over a burst of finished requests: when every
/// request either was malformed or ran to a served hit, a completion or a
/// counted failure, the two counters together grew by exactly the number
/// of requests less the malformed ones. Each per-request delta is what the
/// contracts of `dispatch_request` and `settle_result` prescribe.
pub proof fn lemma_hit_miss_accounting(cs: Seq<RequestClass>)
    ensures
        total_hits(cs) + total_misses(cs) == cs.len() - malformed_count(cs),
    decreases cs.len(),
{
    if cs.len() > 0 {
        lemma_hit_miss_accounting(cs.drop_last());
    }
}

} // verus!
