//! Mapping of the single 0..=100 quality scalar onto each target codec's
//! native quality scale, and the per-job encode plan.

use vstd::prelude::*;

verus! {

/// The target encodings the proxy can produce.
#[derive(Clone, Copy, PartialEq, Eq, Structural, Debug)]
pub enum TargetFormat {
    WebP,
    Avif,
    Jxl,
}

/// Requests with quality at or above this value select lossless encoding
/// for codecs that have a lossless mode.
pub const LOSSLESS_THRESHOLD: u8 = 95;

pub open spec fn lossless_spec(quality: u8) -> bool {
    quality >= 95
}

/// Quality 95 and above selects lossless encoding.
pub fn is_lossless(quality: u8) -> (r: bool)
    ensures
        r == lossless_spec(quality),
{
    quality >= LOSSLESS_THRESHOLD
}

/// Quality clamped into 0..=100.
pub open spec fn clamped_quality_spec(quality: u8) -> u8 {
    if quality > 100 {
        100
    } else {
        quality
    }
}

pub fn clamp_quality(quality: u8) -> (r: u8)
    ensures
        r == clamped_quality_spec(quality),
{
    if quality > 100 {
        100
    } else {
        quality
    }
}

/// JPEG XL's native scale is a distance where lower means better and 0 means
/// lossless, so the 0..=100 input is mapped linearly and monotonically
/// downward, expressed in thousandths of a distance unit: quality 0 maps to
/// distance 8.0 (8000), quality 94 to 0.48 (480), and quality 95 and above
/// to 0 (lossless).
pub open spec fn jxl_distance_milli_spec(quality: u8) -> int {
    if quality >= 95 {
        0
    } else {
        80 * (100 - quality as int)
    }
}

pub fn jxl_distance_milli(quality: u8) -> (d: u32)
    ensures
        d == jxl_distance_milli_spec(quality),
{
    if quality >= LOSSLESS_THRESHOLD {
        0
    } else {
        80 * (100 - quality as u32)
    }
}

/// The quality-to-distance mapping is monotonic: a higher input quality
/// never produces a larger (worse) JPEG XL distance.
pub proof fn lemma_jxl_distance_monotone(q1: u8, q2: u8)
    requires
        q1 <= q2,
    ensures
        jxl_distance_milli_spec(q1) >= jxl_distance_milli_spec(q2),
{
}

/// WebP's native scale is 0..=100 with higher meaning better, so the input
/// is passed through unchanged apart from clamping.
pub fn webp_quality(quality: u8) -> (r: u8)
    ensures
        r == clamped_quality_spec(quality),
{
    clamp_quality(quality)
}

/// Everything the codec adapter needs to encode one job, derived from the
/// job's quality scalar and color option.
pub struct EncodePlan {
    pub grayscale: bool,
    pub lossless: bool,
    pub webp_quality: u8,
    pub jxl_distance_milli: u32,
}

/// Derives the encode plan for a job: grayscale when color is not kept,
/// lossless at quality 95 and above, and the per-codec quality mappings.
pub fn plan_transcode(quality: u8, keep_color: bool) -> (p: EncodePlan)
    ensures
        p.grayscale == !keep_color,
        p.lossless == lossless_spec(quality),
        p.webp_quality == clamped_quality_spec(quality),
        p.jxl_distance_milli == jxl_distance_milli_spec(quality),
{
    EncodePlan {
        grayscale: !keep_color,
        lossless: is_lossless(quality),
        webp_quality: webp_quality(quality),
        jxl_distance_milli: jxl_distance_milli(quality),
    }
}

/// The MIME type of each target format.
pub fn mime_type(format: TargetFormat) -> (m: &'static str)
    ensures
        format is WebP ==> m@ == "image/webp"@,
        format is Avif ==> m@ == "image/avif"@,
        format is Jxl ==> m@ == "image/jxl"@,
{
    match format {
        TargetFormat::WebP => "image/webp",
        TargetFormat::Avif => "image/avif",
        TargetFormat::Jxl => "image/jxl",
    }
}

} // verus!
