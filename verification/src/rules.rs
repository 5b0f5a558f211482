//! The marketplace's arithmetic: royalty splits, saturating balances,
//! referee reputation, and the referees' verdict on a document.
use vstd::prelude::*;
use crate::types::{AUTHOR_BPS, BPS_DENOM, MIN_APPROVALS, PLATFORM_BPS, REVIEWER_BPS, REVIEW_PANEL_SIZE, Document, Reviewer};

verus! {

/// `a + b`, clamped to the range of `i128`.
pub open spec fn sat_add(a: i128, b: i128) -> i128 {
    if a + b > i128::MAX {
        i128::MAX
    } else if a + b < i128::MIN {
        i128::MIN
    } else {
        (a + b) as i128
    }
}

pub fn saturating_add(a: i128, b: i128) -> (r: i128)
    ensures
        r == sat_add(a, b),
{
    match a.checked_add(b) {
        Some(s) => s,
        None => if b > 0 {
            i128::MAX
        } else {
            i128::MIN
        },
    }
}

/// Number of characters in `s`.
pub fn char_len(s: &String) -> (n: usize)
    ensures
        n == s@.len(),
{
    s.as_str().unicode_len()
}

/// The author's share of a sale: 70% of the price, rounded down.
pub open spec fn author_share(price: int) -> int {
    price * (AUTHOR_BPS as int) / (BPS_DENOM as int)
}

/// The platform's share of a sale: 20% of the price, rounded down.
pub open spec fn platform_share(price: int) -> int {
    price * (PLATFORM_BPS as int) / (BPS_DENOM as int)
}

/// What is left of a sale for the referees: the price less both shares.
pub open spec fn reviewer_pool(price: int) -> int {
    price - author_share(price) - platform_share(price)
}

proof fn lemma_share_parts(price: int, q: int, r: int, bps: int)
    by (nonlinear_arith)
    requires
        price == 10000 * q + r,
        0 <= r < 10000,
        0 <= bps <= 10000,
    ensures
        price * bps / 10000 == q * bps + r * bps / 10000,
        0 <= r * bps / 10000 <= r,
{
}

proof fn lemma_share_bounds(price: int)
    by (nonlinear_arith)
    requires
        price >= 0,
    ensures
        0 <= author_share(price) <= price,
        0 <= platform_share(price) <= price,
        author_share(price) + platform_share(price) <= price * 9000 / 10000,
        reviewer_pool(price) >= price * (REVIEWER_BPS as int) / (BPS_DENOM as int),
        reviewer_pool(price) >= 0,
{
}

/// Splits a non-negative price into the author's share, the platform's share
/// and the referee pool, without overflow for any price.
pub fn royalty_split(price: i128) -> (r: (i128, i128, i128))
    requires
        price >= 0,
    ensures
        r.0 == author_share(price as int),
        r.1 == platform_share(price as int),
        r.2 == reviewer_pool(price as int),
        r.0 >= 0,
        r.1 >= 0,
        r.2 >= 0,
{
    let q = price / BPS_DENOM;
    let rem = price % BPS_DENOM;
    proof {
        lemma_share_parts(price as int, q as int, rem as int, AUTHOR_BPS as int);
        lemma_share_parts(price as int, q as int, rem as int, PLATFORM_BPS as int);
        lemma_share_bounds(price as int);
        assert(q * 7000 <= price) by (nonlinear_arith)
            requires
                price == 10000 * q + rem,
                0 <= rem,
                q >= 0,
        ;
    }
    let author = q * AUTHOR_BPS + rem * AUTHOR_BPS / BPS_DENOM;
    let platform = q * PLATFORM_BPS + rem * PLATFORM_BPS / BPS_DENOM;
    let pool = price - author - platform;
    (author, platform, pool)
}

/// Reputation: 50, plus up to 30 points for the share of successful
/// approvals, plus up to 20 points for the average quality given, at most 100.
pub open spec fn reputation_score(successful: u64, count: u64, total_quality: u64) -> u32 {
    let points = 50 + (successful as int) * 30 / (count as int) + ((total_quality as int) / (count as int)) * 20 / 10;
    if points > 100 {
        100
    } else {
        points as u32
    }
}

/// Profile bookkeeping that keeps the reputation formula free of overflow.
pub open spec fn profile_counts_valid(r: Reviewer) -> bool {
    &&& r.successful_approvals == 0
    &&& r.total_quality_given <= 10 * r.review_count
    &&& r.reputation <= 100
}

/// The profile with its reputation recomputed from its counters (unchanged
/// while it has cast no votes).
pub open spec fn with_reputation(r: Reviewer) -> Reviewer {
    if r.review_count == 0 {
        r
    } else {
        Reviewer { reputation: reputation_score(r.successful_approvals, r.review_count, r.total_quality_given), ..r }
    }
}

/// The intermediate values of the reputation formula fit in `u64`.
pub open spec fn reputation_fits(r: Reviewer) -> bool {
    let s = r.successful_approvals as int;
    let c = r.review_count as int;
    let t = r.total_quality_given as int;
    &&& s * 30 <= u64::MAX
    &&& (t / c) * 20 <= u64::MAX
    &&& 50 + s * 30 / c + (t / c) * 20 / 10 <= u64::MAX
}

proof fn lemma_reputation_parts(s: int, c: int, t: int)
    by (nonlinear_arith)
    requires
        c > 0,
        s <= c,
        t <= 10 * c,
    ensures
        s * 30 / c <= 30,
        t / c <= 10,
{
}

/// A profile with a vote count, no more successful approvals than votes
/// (and few enough to multiply by 30), and an average quality of at most 10 keeps the formula within `u64`.
pub proof fn lemma_consistent_profile_fits(r: Reviewer)
    requires
        r.review_count > 0,
        r.successful_approvals <= r.review_count,
        r.successful_approvals * 30 <= u64::MAX,
        r.total_quality_given <= 10 * r.review_count,
    ensures
        reputation_fits(r),
{
    lemma_reputation_parts(r.successful_approvals as int, r.review_count as int, r.total_quality_given as int);
}

pub fn recompute_reputation(rev: &mut Reviewer)
    requires
        old(rev).review_count > 0 ==> reputation_fits(*old(rev)),
    ensures
        *final(rev) == with_reputation(*old(rev)),
{
    if rev.review_count == 0 {
        return;
    }
    let success_pts = (rev.successful_approvals * 30) / rev.review_count;
    let avg_quality = rev.total_quality_given / rev.review_count;
    let quality_pts = (avg_quality * 20) / 10;
    let points = 50 + success_pts + quality_pts;
    rev.reputation = if points > 100 {
        100
    } else {
        points as u32
    };
}

/// Total votes cast on a document.
pub open spec fn total_votes(d: Document) -> int {
    d.approve_votes + d.reject_votes
}

/// At least two approvals, and more than half of all votes approve.
pub open spec fn meets_publication_quorum(d: Document) -> bool {
    &&& d.approve_votes >= MIN_APPROVALS
    &&& 2 * d.approve_votes > total_votes(d)
}

/// After a vote the verdict is taken as soon as the publication quorum is
/// met, and in any case once a full panel has voted.
pub open spec fn verdict_due(d: Document) -> bool {
    meets_publication_quorum(d) || total_votes(d) >= REVIEW_PANEL_SIZE
}

pub fn publication_quorum_met(approve: u32, reject: u32) -> (r: bool)
    ensures
        r == (approve >= MIN_APPROVALS && 2 * approve > approve + reject),
{
    approve >= MIN_APPROVALS && 2 * (approve as u64) > approve as u64 + reject as u64
}

} // verus!
