//! Parsing of the request's query string and URL into the normalized job
//! parameters: the source URL (percent-decoded bytes), the 0..=100 quality
//! scalar, and the color option.

use vstd::prelude::*;
use vstd::string::*;
use crate::percent::percent_decode_bytes;
use crate::percent::percent_decoded;
use crate::percent::url_decode_bytes;

verus! {

/// `&`, the separator between query pairs.
pub const AMP: u8 = 38;

/// `=`, the separator between a key and its value.
pub const EQ: u8 = 61;

/// `+`, the sign byte an integer literal may start with.
pub const PLUS: u8 = 43;

/// The index of the first occurrence of `b` in `s`, or `s.len()` if there
/// is none.
pub open spec fn find_pos(s: Seq<u8>, b: u8) -> int
    decreases s.len(),
{
    if s.len() == 0 {
        0
    } else if s[0] == b {
        0
    } else {
        1 + find_pos(s.skip(1), b)
    }
}

pub proof fn lemma_find_pos(s: Seq<u8>, b: u8)
    ensures
        0 <= find_pos(s, b) <= s.len(),
        find_pos(s, b) < s.len() ==> s[find_pos(s, b)] == b,
        forall|i: int| 0 <= i < find_pos(s, b) ==> s[i] != b,
    decreases s.len(),
{
    if s.len() > 0 && s[0] != b {
        lemma_find_pos(s.skip(1), b);
        assert forall|i: int| 0 <= i < find_pos(s, b) implies s[i] != b by {
            if i > 0 {
                assert(s.skip(1)[i - 1] != b);
            }
        }
    }
}

/// Finds the first occurrence of `b` in `v`; `v.len()` when absent.
pub fn find_byte(v: &Vec<u8>, b: u8) -> (p: usize)
    ensures
        p as int == find_pos(v@, b),
{
    proof {
        lemma_find_pos(v@, b);
    }
    let mut i: usize = 0;
    while i < v.len()
        invariant
            i <= v@.len(),
            0 <= find_pos(v@, b) <= v@.len(),
            find_pos(v@, b) < v@.len() ==> v@[find_pos(v@, b)] == b,
            forall|j: int| 0 <= j < find_pos(v@, b) ==> v@[j] != b,
            forall|j: int| 0 <= j < i ==> v@[j] != b,
        decreases v@.len() - i,
    {
        if v[i] == b {
            proof {
                if find_pos(v@, b) < i as int {
                    assert(v@[find_pos(v@, b)] != b);
                }
                if find_pos(v@, b) > i as int {
                    assert(v@[i as int] != b);
                }
            }
            return i;
        }
        i = i + 1;
    }
    proof {
        if find_pos(v@, b) < v@.len() {
            assert(v@[find_pos(v@, b)] != b);
        }
    }
    i
}

/// A copy of the first `to` bytes of `v`.
pub fn vec_take(v: &Vec<u8>, to: usize) -> (r: Vec<u8>)
    requires
        to <= v@.len(),
    ensures
        r@ == v@.take(to as int),
{
    let mut out: Vec<u8> = Vec::new();
    let mut i: usize = 0;
    while i < to
        invariant
            i <= to <= v@.len(),
            out@ =~= v@.subrange(0, i as int),
        decreases to - i,
    {
        out.push(v[i]);
        i = i + 1;
    }
    proof {
        assert(out@ =~= v@.take(to as int));
    }
    out
}

/// A copy of the bytes of `v` from `from` on.
pub fn vec_skip(v: &Vec<u8>, from: usize) -> (r: Vec<u8>)
    requires
        from <= v@.len(),
    ensures
        r@ == v@.skip(from as int),
{
    let mut out: Vec<u8> = Vec::new();
    let mut i: usize = from;
    while i < v.len()
        invariant
            from <= i <= v@.len(),
            out@ =~= v@.subrange(from as int, i as int),
        decreases v@.len() - i,
    {
        out.push(v[i]);
        i = i + 1;
    }
    proof {
        assert(out@ =~= v@.skip(from as int));
    }
    out
}

pub open spec fn is_digit(b: u8) -> bool {
    48 <= b && b <= 57
}

pub open spec fn all_digits(s: Seq<u8>) -> bool {
    forall|i: int| 0 <= i < s.len() ==> is_digit(#[trigger] s[i])
}

/// The value of a string of decimal digits.
pub open spec fn digits_val(s: Seq<u8>) -> int
    decreases s.len(),
{
    if s.len() == 0 {
        0
    } else {
        10 * digits_val(s.drop_last()) + (s.last() - 48)
    }
}

pub proof fn lemma_digits_val_nonneg(s: Seq<u8>)
    requires
        all_digits(s),
    ensures
        digits_val(s) >= 0,
    decreases s.len(),
{
    if s.len() > 0 {
        assert(all_digits(s.drop_last())) by {
            assert(forall|i: int|
                0 <= i < s.len() - 1 ==> is_digit(#[trigger] s.drop_last()[i]) == is_digit(
                    s[i],
                ));
        }
        lemma_digits_val_nonneg(s.drop_last());
    }
}

/// What `str::parse::<u8>` accepts: an optional leading `+`, then one or
/// more decimal digits naming a value up to 255.
pub open spec fn parse_u8_spec(s: Seq<u8>) -> Option<u8> {
    let t = if s.len() > 0 && s[0] == PLUS {
        s.skip(1)
    } else {
        s
    };
    if t.len() > 0 && all_digits(t) && digits_val(t) <= 255 {
        Some(digits_val(t) as u8)
    } else {
        None
    }
}

/// Parses a decimal byte value as `str::parse::<u8>` would.
pub fn parse_u8_bytes(v: &Vec<u8>) -> (r: Option<u8>)
    ensures
        r == parse_u8_spec(v@),
{
    let start: usize = if v.len() > 0 && v[0] == PLUS {
        1
    } else {
        0
    };
    let ghost t = if v@.len() > 0 && v@[0] == PLUS {
        v@.skip(1)
    } else {
        v@
    };
    proof {
        assert(t =~= v@.subrange(start as int, v@.len() as int));
    }
    if v.len() == start {
        return None;
    }
    let mut acc: u32 = 0;
    let mut too_big = false;
    let mut i: usize = start;
    while i < v.len()
        invariant
            start <= i <= v@.len(),
            t == v@.subrange(start as int, v@.len() as int),
            t == (if v@.len() > 0 && v@[0] == PLUS {
                v@.skip(1)
            } else {
                v@
            }),
            all_digits(t.take(i - start)),
            !too_big ==> acc as int == digits_val(t.take(i - start)) && acc <= 255,
            too_big ==> digits_val(t.take(i - start)) > 255,
        decreases v@.len() - i,
    {
        let b = v[i];
        if b < 48 || b > 57 {
            proof {
                assert(t[i - start] == b);
                assert(!all_digits(t));
            }
            return None;
        }
        proof {
            let k = i - start;
            assert(t.take(k + 1).drop_last() =~= t.take(k as int));
            assert(t.take(k + 1).last() == t[k as int]);
            assert(t[k as int] == b);
            assert(all_digits(t.take(k + 1))) by {
                assert(forall|m: int|
                    0 <= m < k ==> #[trigger] t.take(k + 1)[m] == t.take(k as int)[m]);
            }
            if too_big {
                lemma_digits_val_nonneg(t.take(k as int));
            }
        }
        if !too_big {
            let next: u32 = 10 * acc + (b - 48) as u32;
            if next > 255 {
                too_big = true;
            } else {
                acc = next;
            }
        }
        i = i + 1;
    }
    proof {
        assert(t.take(v@.len() - start) =~= t);
    }
    if too_big {
        None
    } else {
        Some(acc as u8)
    }
}

/// The quality scalar a query value names: the parsed byte clamped to 100,
/// or the default of 80 when the value does not parse.
pub open spec fn quality_from(v: Seq<u8>) -> u8 {
    match parse_u8_spec(v) {
        Some(q) => if q > 100 {
            100
        } else {
            q
        },
        None => 80,
    }
}

/// Parses a quality value with the 80 default and the 100 ceiling.
pub fn parse_quality(v: &Vec<u8>) -> (q: u8)
    ensures
        q == quality_from(v@),
{
    match parse_u8_bytes(v) {
        Some(q) => if q > 100 {
            100
        } else {
            q
        },
        None => 80,
    }
}

/// The bytes of the query key naming the source URL.
pub open spec fn key_url() -> Seq<u8> {
    seq![117u8, 114u8, 108u8]
}

/// The bytes of the query key naming the quality level.
pub open spec fn key_quality() -> Seq<u8> {
    seq![108u8]
}

/// The bytes of the query key naming the black-and-white option.
pub open spec fn key_bw() -> Seq<u8> {
    seq![98u8, 119u8]
}

/// The key and value of one `&`-separated query segment: the key runs to
/// the first `=`, the value from there to the next `=` or the end; a
/// segment without `=` carries no pair.
pub open spec fn pair_of(seg: Seq<u8>) -> Option<(Seq<u8>, Seq<u8>)> {
    let e1 = find_pos(seg, EQ);
    if e1 == seg.len() {
        None
    } else {
        let rest = seg.skip(e1 + 1);
        Some((seg.take(e1), rest.take(find_pos(rest, EQ))))
    }
}

/// One query segment folded into the parameters: `url` is percent-decoded,
/// `l` is parsed as the quality level, `bw` is `0` for keeping color, and
/// any other key is ignored.
pub open spec fn apply_segment(p: (Seq<u8>, u8, bool), seg: Seq<u8>) -> (Seq<u8>, u8, bool) {
    match pair_of(seg) {
        None => p,
        Some(kv) => {
            if kv.0 == key_url() {
                (percent_decoded(kv.1), p.1, p.2)
            } else if kv.0 == key_quality() {
                (p.0, quality_from(kv.1), p.2)
            } else if kv.0 == key_bw() {
                (p.0, p.1, kv.1 != seq![48u8])
            } else {
                p
            }
        },
    }
}

/// The whole query folded segment by segment, later pairs overriding
/// earlier ones.
pub open spec fn apply_segments(p: (Seq<u8>, u8, bool), s: Seq<u8>) -> (Seq<u8>, u8, bool)
    decreases s.len(),
{
    let a = find_pos(s, AMP);
    if 0 <= a && a < s.len() {
        apply_segments(apply_segment(p, s.take(a)), s.skip(a + 1))
    } else {
        apply_segment(p, s)
    }
}

/// What a query string names: the percent-decoded source URL (empty when
/// no `url` pair is present), the quality level (default 80), and whether
/// to convert to grayscale (default on; `bw=0` keeps color).
pub open spec fn parse_query_spec(q: Seq<u8>) -> (Seq<u8>, u8, bool) {
    apply_segments((Seq::<u8>::empty(), 80u8, true), q)
}

/// The normalized request parameters a query string names.
pub struct ImageParams {
    pub url: Vec<u8>,
    pub quality: u8,
    pub grayscale: bool,
}

/// Parses a query string of `&`-separated `key=value` pairs into the
/// request parameters.
pub fn parse_query(query: &Vec<u8>) -> (p: ImageParams)
    ensures
        p.url@ == parse_query_spec(query@).0,
        p.quality == parse_query_spec(query@).1,
        p.grayscale == parse_query_spec(query@).2,
{
    let mut url: Vec<u8> = Vec::new();
    let mut quality: u8 = 80;
    let mut grayscale: bool = true;
    let mut rest: Vec<u8> = crate::cache::clone_bytes(query);
    let mut done = false;
    while !done
        invariant
            !done ==> apply_segments((url@, quality, grayscale), rest@) == parse_query_spec(
                query@,
            ),
            done ==> (url@, quality, grayscale) == parse_query_spec(query@),
        decreases rest@.len(), (if done {
            0int
        } else {
            1int
        }),
    {
        proof {
            lemma_find_pos(rest@, AMP);
        }
        let a = find_byte(&rest, AMP);
        let seg = vec_take(&rest, a);
        let ghost before = (url@, quality, grayscale);
        apply_segment_exec(&mut url, &mut quality, &mut grayscale, &seg);
        proof {
            assert((url@, quality, grayscale) == apply_segment(before, rest@.take(a as int)));
        }
        if a < rest.len() {
            rest = vec_skip(&rest, a + 1);
        } else {
            proof {
                assert(rest@.take(a as int) =~= rest@);
            }
            done = true;
        }
    }
    ImageParams { url, quality, grayscale }
}

/// Folds one query segment into the parameter triple.
fn apply_segment_exec(url: &mut Vec<u8>, quality: &mut u8, grayscale: &mut bool, seg: &Vec<u8>)
    ensures
        (final(url)@, *final(quality), *final(grayscale)) == apply_segment(
            (old(url)@, *old(quality), *old(grayscale)),
            seg@,
        ),
{
    proof {
        lemma_find_pos(seg@, EQ);
    }
    let e1 = find_byte(seg, EQ);
    if e1 == seg.len() {
        return ;
    }
    let k = vec_take(seg, e1);
    let r2 = vec_skip(seg, e1 + 1);
    proof {
        lemma_find_pos(r2@, EQ);
    }
    let e2 = find_byte(&r2, EQ);
    let v = vec_take(&r2, e2);
    if k.len() == 3 && k[0] == 117 && k[1] == 114 && k[2] == 108 {
        proof {
            assert(k@ =~= key_url());
        }
        *url = percent_decode_bytes(&v);
    } else if k.len() == 1 && k[0] == 108 {
        proof {
            assert(k@ != key_url());
            assert(k@ =~= key_quality());
        }
        *quality = parse_quality(&v);
    } else if k.len() == 2 && k[0] == 98 && k[1] == 119 {
        proof {
            assert(k@ != key_url());
            assert(k@ != key_quality());
            assert(k@ =~= key_bw());
        }
        *grayscale = !(v.len() == 1 && v[0] == 48);
        proof {
            if v@.len() == 1 && v@[0] == 48 {
                assert(v@ =~= seq![48u8]);
            }
        }
    } else {
        proof {
            assert(k@ != key_url());
            assert(k@ != key_quality());
            assert(k@ != key_bw());
        }
    }
}

/// Whether `pat` occurs in `s` starting at position `i`.
pub open spec fn match_at(s: Seq<u8>, pat: Seq<u8>, i: int) -> bool {
    0 <= i && i + pat.len() <= s.len() && s.subrange(i, i + pat.len() as int) == pat
}

/// The index of the first occurrence of `pat` in `s`, or -1 if there is
/// none.
pub open spec fn find_sub(s: Seq<u8>, pat: Seq<u8>) -> int
    decreases s.len(),
{
    if match_at(s, pat, 0) {
        0
    } else if s.len() == 0 {
        -1
    } else {
        let r = find_sub(s.skip(1), pat);
        if r == -1 {
            -1
        } else {
            1 + r
        }
    }
}

pub proof fn lemma_find_sub(s: Seq<u8>, pat: Seq<u8>)
    ensures
        find_sub(s, pat) >= -1,
        find_sub(s, pat) == -1 ==> forall|i: int| !match_at(s, pat, i),
        find_sub(s, pat) != -1 ==> 0 <= find_sub(s, pat) <= s.len() && match_at(
            s,
            pat,
            find_sub(s, pat),
        ) && (forall|i: int| 0 <= i < find_sub(s, pat) ==> !match_at(s, pat, i)),
    decreases s.len(),
{
    if match_at(s, pat, 0) {
    } else if s.len() == 0 {
        assert forall|i: int| !match_at(s, pat, i) by {
            if 0 <= i && i + pat.len() <= s.len() {
                assert(i == 0 && pat.len() == 0);
                assert(s.subrange(0, 0) =~= pat);
            }
        }
    } else {
        lemma_find_sub(s.skip(1), pat);
        assert forall|i: int| 0 <= i && i + pat.len() <= s.len() - 1 implies match_at(
            s.skip(1),
            pat,
            i,
        ) == match_at(s, pat, i + 1) by {
            assert(s.skip(1).subrange(i, i + pat.len() as int) =~= s.subrange(
                i + 1,
                i + 1 + pat.len() as int,
            ));
        }
        if find_sub(s.skip(1), pat) == -1 {
            assert forall|i: int| !match_at(s, pat, i) by {
                if 1 <= i && i + pat.len() <= s.len() {
                    assert(!match_at(s.skip(1), pat, i - 1));
                }
            }
        } else {
            let r = find_sub(s.skip(1), pat);
            assert(match_at(s, pat, 1 + r));
            assert forall|i: int| 0 <= i < 1 + r implies !match_at(s, pat, i) by {
                if i >= 1 {
                    assert(!match_at(s.skip(1), pat, i - 1));
                }
            }
        }
    }
}

/// Whether `pat` occurs in `v` at position `at`.
fn match_range(v: &Vec<u8>, pat: &Vec<u8>, at: usize) -> (r: bool)
    requires
        at + pat@.len() <= v@.len(),
    ensures
        r == match_at(v@, pat@, at as int),
{
    let n = v.len();
    let mut k: usize = 0;
    while k < pat.len()
        invariant
            n == v@.len(),
            at as int + pat@.len() <= v@.len(),
            k <= pat@.len(),
            forall|m: int| 0 <= m < k ==> v@[at + m] == pat@[m],
        decreases pat@.len() - k,
    {
        if v[at + k] != pat[k] {
            proof {
                if match_at(v@, pat@, at as int) {
                    assert(v@.subrange(at as int, at + pat@.len() as int)[k as int] == v@[at
                        + k]);
                }
            }
            return false;
        }
        k = k + 1;
    }
    proof {
        assert(v@.subrange(at as int, at + pat@.len() as int) =~= pat@);
    }
    true
}

/// Finds the first occurrence of `pat` in `v`.
pub fn find_subseq(v: &Vec<u8>, pat: &Vec<u8>) -> (r: Option<usize>)
    ensures
        (r is Some <==> find_sub(v@, pat@) >= 0),
        (r is None <==> find_sub(v@, pat@) == -1),
        (r matches Some(p) ==> p as int == find_sub(v@, pat@)),
{
    proof {
        lemma_find_sub(v@, pat@);
    }
    if pat.len() == 0 {
        proof {
            assert(v@.subrange(0, 0) =~= pat@);
            assert(match_at(v@, pat@, 0));
        }
        return Some(0);
    }
    if pat.len() > v.len() {
        proof {
            if find_sub(v@, pat@) >= 0 {
                assert(match_at(v@, pat@, find_sub(v@, pat@)));
            }
        }
        return None;
    }
    let bound = v.len() - pat.len();
    let mut i: usize = 0;
    while i <= bound
        invariant
            1 <= pat@.len() <= v@.len(),
            v@.len() <= usize::MAX as int,
            bound == v@.len() - pat@.len(),
            i <= bound + 1,
            find_sub(v@, pat@) >= -1,
            forall|j: int| 0 <= j < i ==> !match_at(v@, pat@, j),
            find_sub(v@, pat@) == -1 ==> forall|k: int| !match_at(v@, pat@, k),
            find_sub(v@, pat@) != -1 ==> 0 <= find_sub(v@, pat@) <= v@.len() && match_at(
                v@,
                pat@,
                find_sub(v@, pat@),
            ) && (forall|k: int| 0 <= k < find_sub(v@, pat@) ==> !match_at(v@, pat@, k)),
        decreases bound - i + 1,
    {
        if match_range(v, pat, i) {
            proof {
                let fs = find_sub(v@, pat@);
                assert(fs != -1);
                if fs < i as int {
                    assert(!match_at(v@, pat@, fs));
                }
                if fs > i as int {
                    assert(!match_at(v@, pat@, i as int));
                }
            }
            return Some(i);
        }
        i = i + 1;
    }
    proof {
        let fs = find_sub(v@, pat@);
        if fs != -1 {
            assert(match_at(v@, pat@, fs));
            assert(fs <= bound);
            assert(!match_at(v@, pat@, fs));
        }
    }
    None
}

/// The bytes of `?url=`, the marker the plain-URL front end scans for.
pub open spec fn pat_url_marker() -> Seq<u8> {
    seq![63u8, 117u8, 114u8, 108u8, 61u8]
}

/// The bytes of `&bw=0`, the marker for keeping color.
pub open spec fn pat_bw_zero() -> Seq<u8> {
    seq![38u8, 98u8, 119u8, 61u8, 48u8]
}

/// The bytes of `&l=`, the marker in front of the quality level.
pub open spec fn pat_quality_marker() -> Seq<u8> {
    seq![38u8, 108u8, 61u8]
}

/// What a full request URL names, for the front end that scans the raw URL
/// rather than a parsed query: everything between `?url=` and the next `&`
/// is the percent-decoded source URL, `&bw=0` anywhere after it keeps
/// color, and `&l=` introduces the quality level. A URL without the
/// `?url=` marker is passed through whole, with the defaults.
pub open spec fn extract_parameters_spec(full: Seq<u8>) -> (Seq<u8>, u8, bool) {
    let q = find_sub(full, pat_url_marker());
    if q == -1 {
        (full, 80u8, false)
    } else {
        let qp = full.skip(q);
        let after = qp.skip(5);
        let url = percent_decoded(after.take(find_pos(after, AMP)));
        let keep = find_sub(qp, pat_bw_zero()) != -1;
        let l = find_sub(qp, pat_quality_marker());
        let quality = if l == -1 {
            80u8
        } else {
            let qs = qp.skip(l + 3);
            quality_from(qs.take(find_pos(qs, AMP)))
        };
        (url, quality, keep)
    }
}

/// Pulls the source URL, the quality level and the keep-color option out
/// of a full request URL.
pub fn extract_parameters(full_url: &Vec<u8>) -> (r: (Vec<u8>, u8, bool))
    ensures
        r.0@ == extract_parameters_spec(full_url@).0,
        r.1 == extract_parameters_spec(full_url@).1,
        r.2 == extract_parameters_spec(full_url@).2,
{
    let marker: Vec<u8> = vec![63u8, 117u8, 114u8, 108u8, 61u8];
    proof {
        assert(marker@ =~= pat_url_marker());
    }
    let q = match find_subseq(full_url, &marker) {
        Some(q) => q,
        None => {
            return (crate::cache::clone_bytes(full_url), 80, false);
        },
    };
    proof {
        lemma_find_sub(full_url@, pat_url_marker());
        assert(match_at(full_url@, pat_url_marker(), q as int));
    }
    let qp = vec_skip(full_url, q);
    let after = vec_skip(&qp, 5);
    proof {
        lemma_find_pos(after@, AMP);
    }
    let amp = find_byte(&after, AMP);
    let url_part = vec_take(&after, amp);
    let url = url_decode_bytes(&url_part);
    let bw_marker: Vec<u8> = vec![38u8, 98u8, 119u8, 61u8, 48u8];
    proof {
        assert(bw_marker@ =~= pat_bw_zero());
    }
    let keep = match find_subseq(&qp, &bw_marker) {
        Some(_) => true,
        None => false,
    };
    let l_marker: Vec<u8> = vec![38u8, 108u8, 61u8];
    proof {
        assert(l_marker@ =~= pat_quality_marker());
    }
    let quality = match find_subseq(&qp, &l_marker) {
        Some(l) => {
            let qp_len = qp.len();
            proof {
                lemma_find_sub(qp@, pat_quality_marker());
                assert(match_at(qp@, pat_quality_marker(), l as int));
                assert(l as int + 3 <= qp_len as int);
            }
            let qs = vec_skip(&qp, l + 3);
            proof {
                lemma_find_pos(qs@, AMP);
            }
            let amp2 = find_byte(&qs, AMP);
            let qv = vec_take(&qs, amp2);
            parse_quality(&qv)
        },
        None => 80,
    };
    (url, quality, keep)
}

/// The characters of `s` with every trailing `/` removed.
pub open spec fn trim_trailing_slashes(s: Seq<char>) -> Seq<char>
    decreases s.len(),
{
    if s.len() > 0 && s.last() == '/' {
        trim_trailing_slashes(s.drop_last())
    } else {
        s
    }
}

/// The index of the last occurrence of `c` in `s`, or -1 if there is none.
pub open spec fn last_pos_of(s: Seq<char>, c: char) -> int
    decreases s.len(),
{
    if s.len() == 0 {
        -1
    } else if s.last() == c {
        s.len() - 1
    } else {
        last_pos_of(s.drop_last(), c)
    }
}

/// The last path component of a URL: what follows the final `/` after
/// trailing slashes are dropped.
pub open spec fn base_name_spec(url: Seq<char>) -> Seq<char> {
    let t = trim_trailing_slashes(url);
    t.skip(last_pos_of(t, '/') + 1)
}

/// The fallback stem for URLs without a usable file name.
pub open spec fn default_stem() -> Seq<char> {
    seq!['i', 'm', 'a', 'g', 'e']
}

/// The stem of a URL's last path component: the component up to its last
/// `.`, the whole component when it has no `.` past the first position,
/// and a fixed fallback when there is no usable component at all.
pub open spec fn file_stem_spec(url: Seq<char>) -> Seq<char> {
    let name = base_name_spec(url);
    if name.len() == 0 || name == seq!['.'] || name == seq!['.', '.'] {
        default_stem()
    } else {
        let d = last_pos_of(name, '.');
        if d <= 0 {
            name
        } else {
            name.take(d)
        }
    }
}

/// The file name a response advertises: the URL's stem with the new
/// extension.
pub open spec fn filename_with_ext_spec(url: Seq<char>, ext: Seq<char>) -> Seq<char> {
    file_stem_spec(url) + seq!['.'] + ext
}

/// Derives a download file name from the source URL, swapping in the
/// extension of the produced format.
pub fn get_filename_with_extension(url: &str, new_ext: &str) -> (r: String)
    ensures
        r@ == filename_with_ext_spec(url@, new_ext@),
{
    let n = url.unicode_len();
    let mut t_end = n;
    proof {
        assert(url@.take(n as int) =~= url@);
    }
    while t_end > 0 && url.get_char(t_end - 1) == '/'
        invariant
            t_end <= n,
            n == url@.len(),
            trim_trailing_slashes(url@) == trim_trailing_slashes(url@.take(t_end as int)),
        decreases t_end,
    {
        proof {
            assert(url@.take(t_end as int).drop_last() =~= url@.take(t_end - 1));
            assert(url@.take(t_end as int).last() == url@[t_end - 1]);
        }
        t_end = t_end - 1;
    }
    proof {
        assert(url@.take(n as int) =~= url@);
        if t_end > 0 {
            assert(url@.take(t_end as int).last() == url@[t_end - 1]);
        }
        assert(trim_trailing_slashes(url@) == url@.take(t_end as int));
    }
    let ghost t = url@.take(t_end as int);
    let mut m = t_end;
    proof {
        assert(t.take(t_end as int) =~= t);
    }
    while m > 0 && url.get_char(m - 1) != '/'
        invariant
            m <= t_end <= n,
            n == url@.len(),
            t == url@.take(t_end as int),
            last_pos_of(t, '/') == last_pos_of(t.take(m as int), '/'),
        decreases m,
    {
        proof {
            assert(t.take(m as int).drop_last() =~= t.take(m - 1));
            assert(t.take(m as int).last() == t[m - 1]);
            assert(t[m - 1] == url@[m - 1]);
        }
        m = m - 1;
    }
    proof {
        assert(t.take(t_end as int) =~= t);
        if m > 0 {
            assert(t.take(m as int).last() == t[m - 1]);
            assert(t[m - 1] == url@[m - 1]);
            assert(last_pos_of(t, '/') == m - 1);
        } else {
            assert(last_pos_of(t, '/') == -1);
        }
        assert(base_name_spec(url@) == t.skip(m as int));
        assert(t.skip(m as int) =~= url@.subrange(m as int, t_end as int));
    }
    let ghost name = base_name_spec(url@);
    let name_len = t_end - m;
    let is_dot = name_len == 1 && url.get_char(m) == '.';
    let is_dot_dot = name_len == 2 && url.get_char(m) == '.' && url.get_char(m + 1) == '.';
    if name_len == 0 || is_dot || is_dot_dot {
        proof {
            reveal_strlit("image");
            reveal_strlit(".");
            if is_dot {
                assert(name =~= seq!['.']);
            }
            if is_dot_dot {
                assert(name =~= seq!['.', '.']);
            }
            if name_len > 0 && !is_dot && !is_dot_dot {
                assert(name.len() >= 1);
                if name == seq!['.'] {
                    assert(name[0] == '.' && name.len() == 1);
                }
                if name == seq!['.', '.'] {
                    assert(name[0] == '.' && name[1] == '.' && name.len() == 2);
                }
            }
            assert("image"@ =~= default_stem());
            assert("."@ =~= seq!['.']);
        }
        let r = String::from_str("image").concat(".").concat(new_ext);
        proof {
            assert(r@ =~= filename_with_ext_spec(url@, new_ext@));
        }
        return r;
    }
    proof {
        if name == seq!['.'] {
            assert(name.len() == 1 && name[0] == '.');
            assert(url@[m as int] == name[0]);
        }
        if name == seq!['.', '.'] {
            assert(url@[m as int] == name[0] && url@[m + 1] == name[1]);
        }
    }
    let mut d = t_end;
    proof {
        assert(name.take(t_end - m) =~= name);
    }
    while d > m && url.get_char(d - 1) != '.'
        invariant
            m <= d <= t_end <= n,
            n == url@.len(),
            name == url@.subrange(m as int, t_end as int),
            last_pos_of(name, '.') == last_pos_of(name.take(d - m), '.'),
        decreases d,
    {
        proof {
            assert(name.take(d - m).drop_last() =~= name.take(d - m - 1));
            assert(name.take(d - m).last() == name[d - m - 1]);
            assert(name[d - m - 1] == url@[d - 1]);
        }
        d = d - 1;
    }
    proof {
        assert(name.take(t_end - m) =~= name);
        if d > m {
            assert(name.take(d - m).last() == name[d - m - 1]);
            assert(name[d - m - 1] == url@[d - 1]);
            assert(last_pos_of(name, '.') == d - 1 - m);
        } else {
            assert(last_pos_of(name, '.') == -1);
        }
    }
    let stem_len: usize = if d > m && d - 1 - m > 0 {
        d - 1 - m
    } else {
        name_len
    };
    let stem = url.substring_char(m, m + stem_len);
    proof {
        assert(stem@ =~= file_stem_spec(url@)) by {
            if d > m && d - 1 - m > 0 {
                assert(name.take(d - 1 - m) =~= url@.subrange(m as int, m + stem_len));
            } else {
                assert(name =~= url@.subrange(m as int, m + stem_len));
            }
        }
        reveal_strlit(".");
        assert("."@ =~= seq!['.']);
    }
    let r = String::from_str(stem).concat(".").concat(new_ext);
    proof {
        assert(r@ =~= filename_with_ext_spec(url@, new_ext@));
    }
    r
}

} // verus!
