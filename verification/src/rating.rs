//! The rating engine: turns a measured latency, the edge-network flag and
//! the caller's network into a quality score.
//!
//! A score lies between 0 and 255. 0 stands for an unreachable host and is
//! never the score of a host that answered.

use vstd::prelude::*;

verus! {

/// The latency curve in milliseconds: flat at 240 up to 50 ms, then falling
/// by 1 per millisecond to 100 ms, by 0.5 per millisecond to 200 ms and by
/// 0.033 per millisecond to 500 ms, and flat at 100 beyond. Fractions are
/// cut off.
pub open spec fn curve(ms: nat) -> int {
    if ms <= 50 {
        240
    } else if ms <= 100 {
        240 - (ms - 50)
    } else if ms <= 200 {
        190 - (ms - 100 + 1) / 2
    } else if ms <= 500 {
        140 - (33 * (ms - 200) + 999) / 1000
    } else {
        100
    }
}

/// The base score of a latency: the curve, held between 1 and 255.
pub open spec fn latency_score(ms: nat) -> int {
    if curve(ms) < 1 {
        1
    } else if curve(ms) > 255 {
        255
    } else {
        curve(ms)
    }
}

/// Networks known for poor peering with the Cloudflare edge network.
pub open spec fn poor_peering(asn: u32) -> bool {
    asn == 3320 || asn == 5483
}

/// The score of a host that answered after `ms` milliseconds: the base
/// score, cut to a tenth where the host sits behind the edge network and the
/// caller's network peers poorly with it.
pub open spec fn score(ms: nat, is_cloudflare: bool, asn: u32) -> int {
    if is_cloudflare && poor_peering(asn) {
        latency_score(ms) / 10
    } else {
        latency_score(ms)
    }
}

/// The base score stays within the range of the curve.
pub proof fn lemma_latency_score_range(ms: nat)
    ensures
        100 <= latency_score(ms) <= 240,
        latency_score(ms) == curve(ms),
{
}

/// A host that answered never has the score of an unreachable one.
pub proof fn lemma_score_positive(ms: nat, is_cloudflare: bool, asn: u32)
    ensures
        10 <= score(ms, is_cloudflare, asn) <= 240,
{
}

/// A slower answer never scores higher, all else equal.
pub proof fn lemma_score_monotone(slow: nat, fast: nat, is_cloudflare: bool, asn: u32)
    requires
        fast <= slow,
    ensures
        score(fast, is_cloudflare, asn) >= score(slow, is_cloudflare, asn),
{
    assert(curve(fast) >= curve(slow));
}

/// Behind the edge network, a poorly peered network gets a tenth of the
/// score of any other network, rounded down.
pub proof fn lemma_penalty_is_a_tenth(ms: nat, penalized: u32, other: u32)
    requires
        poor_peering(penalized),
        !poor_peering(other),
    ensures
        score(ms, true, penalized) == score(ms, true, other) / 10,
        score(ms, false, penalized) == score(ms, false, other),
{
}

/// Whether the caller's network peers poorly with the Cloudflare edge
/// network.
pub fn has_poor_peering(asn: u32) -> (r: bool)
    ensures
        r == poor_peering(asn),
{
    // 3320: Deutsche Telekom; 5483: Magyar Telekom, its subsidiary
    asn == 3320 || asn == 5483
}

/// How long a probe may take, in milliseconds: short on the first rating
/// pass of a run, which screens out dead hosts, longer on every later one.
pub fn probe_timeout(is_initial: bool) -> (ms: u64)
    ensures
        ms == if is_initial { 1000u64 } else { 5000u64 },
{
    if is_initial {
        1000
    } else {
        5000
    }
}

} // verus!
