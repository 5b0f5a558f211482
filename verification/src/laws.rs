//! Properties of the marketplace that span operations.
use vstd::prelude::*;
use crate::chain::{
    account_keys, after_review, after_vote, ai_checked, balance_in, credited, credited_each,
    is_listed, keeps_history, record_matches, renews_grant, voters_recorded, with_verdict,
    ChainView,
};
use crate::rules::{
    author_share, meets_publication_quorum, platform_share, reviewer_pool,
    total_votes,
};
use crate::rules::profile_counts_valid;
use crate::types::{
    Reviewer, DEFAULT_MIN_STAKE, Decision, DocStatus, Document, Error, ACCESS_TTL_LEDGERS, BPS_DENOM, MAX_SIMILARITY, MIN_APPROVALS,
    REVIEWER_BPS,
};

verus! {

/// The documented lifecycle: AI check, then vetting, then a verdict; a
/// published document can be revoked; everything else stays where it is.
pub open spec fn status_step(from: DocStatus, to: DocStatus) -> bool {
    ||| from == to
    ||| from == DocStatus::Published && to == DocStatus::Revoked
    ||| from == DocStatus::PendingAiVerification && (to == DocStatus::PendingReview || to
        == DocStatus::RejectedByAi)
    ||| from == DocStatus::PendingReview && to == DocStatus::UnderReview
    ||| (from == DocStatus::PendingReview || from == DocStatus::UnderReview) && (to
        == DocStatus::Published || to == DocStatus::RejectedByReviewers)
}

/// Recording the AI check of a document awaiting it follows the lifecycle.
pub proof fn law_ai_check_follows_lifecycle(d: Document, passed: bool, score: u32, report: String)
    requires
        d.status == DocStatus::PendingAiVerification,
    ensures
        status_step(d.status, ai_checked(d, passed, score, report).status),
        ai_checked(d, passed, score, report).status == DocStatus::PendingReview <==> (passed
            && score <= MAX_SIMILARITY),
{
}

/// A vote on a document under vetting follows the lifecycle.
pub proof fn law_vote_follows_lifecycle(d: Document, decision: Decision, ledger: u32)
    requires
        d.status == DocStatus::PendingReview || d.status == DocStatus::UnderReview,
    ensures
        status_step(d.status, after_vote(d, decision, ledger).status),
{
}

/// A verdict on a document under vetting follows the lifecycle, and it
/// publishes exactly when the publication quorum is met.
pub proof fn law_verdict_follows_lifecycle(d: Document, ledger: u32)
    requires
        d.status == DocStatus::UnderReview,
    ensures
        status_step(d.status, with_verdict(d, ledger).status),
        with_verdict(d, ledger).status == DocStatus::Published <==> meets_publication_quorum(d),
        with_verdict(d, ledger).status == DocStatus::Published ==> with_verdict(d, ledger).published_at
            == ledger,
{
}

/// Revoking follows the lifecycle: only a published document is revoked,
/// and any other document is refused and left as it is.
pub proof fn law_revoke_follows_lifecycle(v: ChainView, id: u64)
    requires
        v.initialized(),
        v.has_document(id),
    ensures
        v.revoke_error(id) is None <==> v.document(id).status == DocStatus::Published,
        v.revoke_error(id) is None ==> status_step(v.document(id).status, DocStatus::Revoked),
{
}

/// Only documents that met the publication quorum are published: at least
/// two approvals making up more than half of the votes.
pub proof fn law_published_means_quorum(v: ChainView, id: u64)
    requires
        v.valid(),
        v.has_document(id),
        v.document(id).status == DocStatus::Published,
    ensures
        v.document(id).approve_votes >= MIN_APPROVALS,
        v.document(id).approve_votes * 2 > total_votes(v.document(id)),
{
    assert(v.documents[id - 1] == v.document(id));
}

/// Documents rejected by referees had at least two votes and missed the
/// publication quorum.
pub proof fn law_rejected_means_no_quorum(v: ChainView, id: u64)
    requires
        v.valid(),
        v.has_document(id),
        v.document(id).status == DocStatus::RejectedByReviewers,
    ensures
        total_votes(v.document(id)) >= MIN_APPROVALS,
        !meets_publication_quorum(v.document(id)),
{
    assert(v.documents[id - 1] == v.document(id));
}

/// A sale's price is split without loss: the author's 70%, the platform's
/// 20% and the referee pool add up to the price; the pool is at least 10%;
/// and shared among `n` referees it leaves a remainder below `n`.
pub proof fn law_royalty_split_is_exact(price: int, n: int)
    requires
        price >= 0,
        n > 0,
    ensures
        author_share(price) + platform_share(price) + reviewer_pool(price) == price,
        author_share(price) == price * 7000 / 10000,
        platform_share(price) == price * 2000 / 10000,
        reviewer_pool(price) >= price * (REVIEWER_BPS as int) / (BPS_DENOM as int),
        author_share(price) >= 0 && platform_share(price) >= 0 && reviewer_pool(price) >= 0,
        (reviewer_pool(price) / n) * n + (reviewer_pool(price) - (reviewer_pool(price) / n) * n)
            == reviewer_pool(price),
        0 <= reviewer_pool(price) - (reviewer_pool(price) / n) * n < n,
{
    assert(0 <= author_share(price) && 0 <= platform_share(price) && author_share(price)
        + platform_share(price) <= price * 9000 / 10000 && reviewer_pool(price) >= price * 1000
        / 10000) by (nonlinear_arith)
        requires
            price >= 0,
            author_share(price) == price * 7000 / 10000,
            platform_share(price) == price * 2000 / 10000,
            reviewer_pool(price) == price - author_share(price) - platform_share(price),
    ;
    let pool = reviewer_pool(price);
    assert(0 <= pool - (pool / n) * n < n) by (nonlinear_arith)
        requires
            pool >= 0,
            n > 0,
    ;
}

/// A referee who has voted on a document cannot vote on it again.
pub proof fn law_one_vote_per_reviewer(
    v: ChainView,
    who: Seq<char>,
    id: u64,
    quality_score: u32,
    comments: Seq<char>,
)
    requires
        v.review_records.contains_key((who, id)),
    ensures
        v.review_error(who, id, quality_score, comments) is Some,
{
}

/// A referee cannot vote on their own document.
pub proof fn law_no_self_review(
    v: ChainView,
    who: Seq<char>,
    id: u64,
    quality_score: u32,
    comments: Seq<char>,
)
    requires
        v.has_document(id),
        v.document(id).author@ == who,
    ensures
        v.review_error(who, id, quality_score, comments) is Some,
{
}

/// A slashed referee's votes are refused (with the slashed-account error unless
/// the platform is paused).
pub proof fn law_slashed_reviewer_cannot_vote(
    v: ChainView,
    who: Seq<char>,
    id: u64,
    quality_score: u32,
    comments: Seq<char>,
)
    requires
        v.reviewers.contains_key(who),
        v.reviewers[who].slashed,
    ensures
        v.review_error(who, id, quality_score, comments) is Some,
        !v.paused ==> v.review_error(who, id, quality_score, comments) == Some(Error::ReviewerSlashed),
{
}

/// While paused, submissions, registrations, votes and purchases are refused.
pub proof fn law_pause_stops_activity(
    v: ChainView,
    who: Seq<char>,
    id: u64,
    title: Seq<char>,
    abstract_: Seq<char>,
    ipfs_hash: Seq<char>,
    price: i128,
    stake: i128,
    quality_score: u32,
    comments: Seq<char>,
    ledger: u32,
)
    requires
        v.paused,
    ensures
        v.submit_error(title, abstract_, ipfs_hash, price) == Some(Error::ContractPaused),
        v.register_error(who, stake) == Some(Error::ContractPaused),
        v.review_error(who, id, quality_score, comments) == Some(Error::ContractPaused),
        v.purchase_error(who, id, ledger) == Some(Error::ContractPaused),
{
}

/// A reader whose access is still running cannot buy it again.
pub proof fn law_no_double_purchase(v: ChainView, who: Seq<char>, id: u64, ledger: u32)
    requires
        v.expiry(who, id) > ledger,
    ensures
        v.purchase_error(who, id, ledger) is Some,
{
}

/// Access bought at `ledger` runs for exactly `ACCESS_TTL_LEDGERS` ledgers.
pub proof fn law_access_window(
    v: ChainView,
    who: Seq<char>,
    id: u64,
    ledger: u32,
    later: u32,
)
    requires
        ledger + ACCESS_TTL_LEDGERS <= u32::MAX,
    ensures
        (ChainView {
            access_expiry: v.access_expiry.insert((who, id), (ledger + ACCESS_TTL_LEDGERS) as u32),
            ..v
        }).expiry(who, id) > later <==> later < ledger + ACCESS_TTL_LEDGERS,
{
}

/// After a withdrawal nothing is left to withdraw.
pub proof fn law_withdraw_empties_balance(v: ChainView, who: Seq<char>)
    ensures
        (ChainView { earnings: v.earnings.remove(who), ..v }).balance(who) == 0,
        (ChainView { earnings: v.earnings.remove(who), ..v }).withdraw_error(who) == Some(
            Error::NoEarnings,
        ),
{
}

/// Crediting a non-negative amount below saturation adds exactly that amount
/// and touches no other balance.
pub proof fn law_credit_adds_amount(
    m: Map<Seq<char>, i128>,
    who: Seq<char>,
    other: Seq<char>,
    amount: i128,
)
    requires
        amount >= 0,
        (if m.contains_key(who) {
            m[who] as int
        } else {
            0
        }) + amount <= i128::MAX,
    ensures
        credited(m, who, amount)[who] == (if m.contains_key(who) {
            m[who] as int
        } else {
            0
        }) + amount,
        other != who ==> credited(m, who, amount).contains_key(other) == m.contains_key(other),
        other != who && m.contains_key(other) ==> credited(m, who, amount)[other] == m[other],
{
}

/// Pending earnings are never negative.
pub proof fn law_earnings_non_negative(v: ChainView, who: Seq<char>)
    requires
        v.valid(),
    ensures
        v.balance(who) >= 0,
{
}

/// A referee's reputation stays within 0..=100.
pub proof fn law_reputation_bounded(v: ChainView, who: Seq<char>)
    requires
        v.valid(),
        v.reviewers.contains_key(who),
    ensures
        v.reviewers[who].reputation <= 100,
{
}

/// Initializing an initialized platform is refused.
pub proof fn law_initialize_only_once(v: ChainView)
    requires
        v.initialized(),
    ensures
        v.initialize_error() == Some(Error::AlreadyInitialized),
{
}


/// Every vote counted on a document came from a distinct account other
/// than the author, each with its vote record kept: the accounts that share a sale's referee pool
/// are exactly those whose votes were counted.
pub proof fn law_votes_from_distinct_accounts(v: ChainView, id: u64)
    requires
        v.valid(),
        v.has_document(id),
    ensures
        total_votes(v.document(id)) == v.reviewers_of(id).len(),
        forall|j: int|
            0 <= j < v.reviewers_of(id).len() ==> v.review_records.contains_key(
                ((#[trigger] v.reviewers_of(id)[j])@, id),
            ),
        forall|j: int, k: int|
            0 <= j < k < v.reviewers_of(id).len() ==> (#[trigger] v.reviewers_of(id)[j])@ != (
            #[trigger] v.reviewers_of(id)[k])@,
        forall|j: int|
            0 <= j < v.reviewers_of(id).len() ==> (#[trigger] v.reviewers_of(id)[j])@ != v.document(
                id,
            ).author@,
{
    let i = id - 1;
    assert(voters_recorded(v.documents[i], v.doc_reviewers[i], v.review_records));
}

/// The accounts holding a vote record on document `id`.
pub open spec fn record_holders(v: ChainView, id: u64) -> Set<Seq<char>> {
    Set::new(|who: Seq<char>| v.review_records.contains_key((who, id)))
}

/// On a document numbered after setup (on every document, when none was
/// submitted before the platform was initialized), the vote records are
/// exactly those of its listed voters: one record per counted vote, each
/// from a distinct account, none from the author.
pub proof fn law_records_are_the_votes(v: ChainView, id: u64)
    requires
        v.valid(),
        v.has_document(id),
        id > v.pre_init_documents,
    ensures
        record_holders(v, id) == account_keys(v.reviewers_of(id)).to_set(),
        record_holders(v, id).finite(),
        record_holders(v, id).len() == total_votes(v.document(id)),
        !record_holders(v, id).contains(v.document(id).author@),
{
    let i = id - 1;
    let voters = v.reviewers_of(id);
    let keys = account_keys(voters);
    assert(voters_recorded(v.documents[i], v.doc_reviewers[i], v.review_records));
    assert(v.documents[i].id == id);
    assert forall|who: Seq<char>| #[trigger]
        record_holders(v, id).contains(who) == keys.to_set().contains(who) by {
        if v.review_records.contains_key((who, id)) {
            assert(is_listed(voters, who));
            let j = choose|j: int| 0 <= j < voters.len() && (#[trigger] voters[j])@ == who;
            assert(keys[j] == who);
            assert(keys.contains(who));
        }
        if keys.contains(who) {
            let j = choose|j: int| 0 <= j < keys.len() && keys[j] == who;
            assert(voters[j]@ == who);
        }
    }
    assert(record_holders(v, id) =~= keys.to_set());
    assert forall|a: int, b: int| 0 <= a < keys.len() && 0 <= b < keys.len() && a != b implies keys[a]
        != keys[b] by {
        if a < b {
            assert(voters[a]@ != voters[b]@);
        } else {
            assert(voters[b]@ != voters[a]@);
        }
    }
    keys.unique_seq_to_set();
    if record_holders(v, id).contains(v.document(id).author@) {
        let j = choose|j: int| 0 <= j < keys.len() && keys[j] == v.document(id).author@;
        assert(voters[j]@ != v.document(id).author@);
    }
}

/// Every stored vote record belongs to a stored document and names the
/// voter and the document under which it is kept.
pub proof fn law_records_match_their_keys(v: ChainView, who: Seq<char>, id: u64)
    requires
        v.valid(),
        v.review_records.contains_key((who, id)),
    ensures
        v.has_document(id),
        v.review_records[(who, id)].reviewer@ == who,
        v.review_records[(who, id)].doc_id == id,
{
    assert(record_matches(v.review_records[(who, id)], (who, id), v.documents.len()));
}

/// One operation as its contract describes it: one that buys no access, or
/// a purchase that renews a single grant.
pub open spec fn is_step(a: ChainView, b: ChainView) -> bool {
    ||| keeps_history(a, b)
    ||| exists|k: (Seq<char>, u64)| #[trigger] renews_grant(a, b, k)
}

/// One operation that leaves the grant under `key` alone: one that buys no
/// access, or a purchase of another grant.
pub open spec fn spares_grant(a: ChainView, b: ChainView, key: (Seq<char>, u64)) -> bool {
    ||| keeps_history(a, b)
    ||| exists|k: (Seq<char>, u64)| k != key && #[trigger] renews_grant(a, b, k)
}

/// The states of a run of operations, first to last.
pub open spec fn is_run(run: Seq<ChainView>) -> bool {
    forall|i: int| 0 <= i < run.len() - 1 ==> #[trigger] is_step(run[i], run[i + 1])
}

/// The states of a run of operations none of which buys access under `key`.
pub open spec fn run_spares_grant(run: Seq<ChainView>, key: (Seq<char>, u64)) -> bool {
    forall|i: int| 0 <= i < run.len() - 1 ==> #[trigger] spares_grant(run[i], run[i + 1], key)
}

/// A stored vote record reads back unchanged after any run of operations.
pub proof fn law_record_persists(run: Seq<ChainView>, who: Seq<char>, id: u64)
    requires
        is_run(run),
        run.len() >= 1,
        run[0].review_records.contains_key((who, id)),
    ensures
        run.last().review_records.contains_key((who, id)),
        run.last().review_records[(who, id)] == run[0].review_records[(who, id)],
    decreases run.len(),
{
    if run.len() > 1 {
        let prev = run.drop_last();
        assert forall|i: int| 0 <= i < prev.len() - 1 implies #[trigger] is_step(prev[i], prev[i + 1]) by {
            assert(is_step(run[i], run[i + 1]));
        }
        law_record_persists(prev, who, id);
        let m = run.len() - 2;
        let (a, b) = (run[m], run[m + 1]);
        assert(is_step(a, b));
        if !keeps_history(a, b) {
            let k = choose|k: (Seq<char>, u64)| #[trigger] renews_grant(a, b, k);
            assert(renews_grant(a, b, k));
        }
    }
}

/// Over any run of operations an access grant ends no earlier than before,
/// so access that is running at a ledger keeps running at that ledger.
pub proof fn law_access_persists(run: Seq<ChainView>, who: Seq<char>, id: u64, ledger: u32)
    requires
        is_run(run),
        run.len() >= 1,
    ensures
        run.last().expiry(who, id) >= run[0].expiry(who, id),
        run[0].expiry(who, id) > ledger ==> run.last().expiry(who, id) > ledger,
    decreases run.len(),
{
    if run.len() > 1 {
        let prev = run.drop_last();
        assert forall|i: int| 0 <= i < prev.len() - 1 implies #[trigger] is_step(prev[i], prev[i + 1]) by {
            assert(is_step(run[i], run[i + 1]));
        }
        law_access_persists(prev, who, id, ledger);
        let m = run.len() - 2;
        let (a, b) = (run[m], run[m + 1]);
        assert(is_step(a, b));
        if !keeps_history(a, b) {
            let k = choose|k: (Seq<char>, u64)| #[trigger] renews_grant(a, b, k);
            assert(renews_grant(a, b, k));
            if k != (who, id) {
                assert(a.access_expiry.remove(k).contains_key((who, id)) == a.access_expiry.contains_key((who, id)));
                assert(b.access_expiry.remove(k).contains_key((who, id)) == b.access_expiry.contains_key((who, id)));
                if a.access_expiry.contains_key((who, id)) {
                    assert(b.access_expiry.remove(k)[(who, id)] == b.access_expiry[(who, id)]);
                    assert(a.access_expiry.remove(k)[(who, id)] == a.access_expiry[(who, id)]);
                }
            }
        }
    }
}

/// Access bought once ends exactly when bought: over a run of operations in
/// which the reader does not buy that document again, the grant stays as
/// the purchase left it (ending `ACCESS_TTL_LEDGERS` after the purchase, see
/// `law_access_window`), so at any ledger the reader has access exactly
/// while that ledger is before the end.
pub proof fn law_access_ends_at_bought_expiry(
    run: Seq<ChainView>,
    who: Seq<char>,
    id: u64,
    later: u32,
)
    requires
        run_spares_grant(run, (who, id)),
        run.len() >= 1,
    ensures
        run.last().expiry(who, id) == run[0].expiry(who, id),
        run.last().expiry(who, id) > later <==> later < run[0].expiry(who, id),
    decreases run.len(),
{
    if run.len() > 1 {
        let prev = run.drop_last();
        assert forall|i: int| 0 <= i < prev.len() - 1 implies #[trigger] spares_grant(
            prev[i],
            prev[i + 1],
            (who, id),
        ) by {
            assert(spares_grant(run[i], run[i + 1], (who, id)));
        }
        law_access_ends_at_bought_expiry(prev, who, id, later);
        let m = run.len() - 2;
        let (a, b) = (run[m], run[m + 1]);
        assert(spares_grant(a, b, (who, id)));
        if !keeps_history(a, b) {
            let k = choose|k: (Seq<char>, u64)| k != (who, id) && #[trigger] renews_grant(a, b, k);
            assert(renews_grant(a, b, k));
            assert(a.access_expiry.remove(k).contains_key((who, id)) == a.access_expiry.contains_key((who, id)));
            assert(b.access_expiry.remove(k).contains_key((who, id)) == b.access_expiry.contains_key((who, id)));
            if a.access_expiry.contains_key((who, id)) {
                assert(b.access_expiry.remove(k)[(who, id)] == b.access_expiry[(who, id)]);
                assert(a.access_expiry.remove(k)[(who, id)] == a.access_expiry[(who, id)]);
            }
        }
    }
}

/// `a + b` for non-negative `a` and `b`, held at `i128::MAX`.
pub open spec fn capped_sum(a: int, b: int) -> int {
    if a + b > i128::MAX {
        i128::MAX as int
    } else {
        a + b
    }
}

/// Crediting a list of accounts leaves the balance of any other account as it was.
proof fn lemma_credit_each_spares(
    m: Map<Seq<char>, i128>,
    who: Seq<Seq<char>>,
    amount: i128,
    k: Seq<char>,
)
    requires
        !who.contains(k),
    ensures
        balance_in(credited_each(m, who, amount), k) == balance_in(m, k),
    decreases who.len(),
{
    if who.len() > 0 {
        assert(!who.drop_last().contains(k)) by {
            if who.drop_last().contains(k) {
                let j = choose|j: int| 0 <= j < who.drop_last().len() && who.drop_last()[j] == k;
                assert(who[j] == k);
            }
        }
        assert(who.last() != k) by {
            assert(who[who.len() - 1] == who.last());
        }
        lemma_credit_each_spares(m, who.drop_last(), amount, k);
    }
}

/// Crediting a list of distinct accounts credits each of them once.
proof fn lemma_credit_each_once(
    m: Map<Seq<char>, i128>,
    who: Seq<Seq<char>>,
    amount: i128,
    j: int,
)
    requires
        who.no_duplicates(),
        0 <= j < who.len(),
    ensures
        balance_in(credited_each(m, who, amount), who[j]) == crate::rules::sat_add(
            balance_in(m, who[j]),
            amount,
        ),
    decreases who.len(),
{
    let rest = who.drop_last();
    if j == who.len() - 1 {
        assert(!rest.contains(who[j])) by {
            if rest.contains(who[j]) {
                let i = choose|i: int| 0 <= i < rest.len() && rest[i] == who[j];
                assert(who[i] == who[j]);
            }
        }
        lemma_credit_each_spares(m, rest, amount, who[j]);
    } else {
        assert(rest[j] == who[j]);
        assert(who.last() != who[j]);
        lemma_credit_each_once(m, rest, amount, j);
    }
}

/// Facts about a stored document that a sale of it relies on.
proof fn lemma_sale_setting(v: ChainView, id: u64)
    requires
        v.valid(),
        v.has_document(id),
    ensures
        account_keys(v.reviewers_of(id)).no_duplicates(),
        !account_keys(v.reviewers_of(id)).contains(v.document(id).author@),
        v.document(id).access_price >= 0,
        v.balance(v.document(id).author@) >= 0,
        forall|k: Seq<char>| v.balance(k) >= 0,
{
    let i = id - 1;
    let voters = v.reviewers_of(id);
    let keys = account_keys(voters);
    assert(voters_recorded(v.documents[i], v.doc_reviewers[i], v.review_records));
    assert(v.documents[i] == v.document(id));
    assert forall|a: int, b: int| 0 <= a < keys.len() && 0 <= b < keys.len() && a != b implies keys[a]
        != keys[b] by {
        if a < b {
            assert(voters[a]@ != voters[b]@);
        } else {
            assert(voters[b]@ != voters[a]@);
        }
    }
    if keys.contains(v.document(id).author@) {
        let j = choose|j: int| 0 <= j < keys.len() && keys[j] == v.document(id).author@;
        assert(voters[j]@ != v.document(id).author@);
    }
    assert forall|k: Seq<char>| v.balance(k) >= 0 by {
        if v.earnings.contains_key(k) {
            assert(v.earnings[k] >= 0);
        }
    }
}

/// A sale credits the author 70% of the price on top of what the author was
/// already owed (held at the largest balance), when the author is not the
/// treasury.
pub proof fn law_sale_adds_author_share(v: ChainView, id: u64)
    requires
        v.valid(),
        v.initialized(),
        v.has_document(id),
        v.document(id).author@ != v.config.unwrap().treasury@,
    ensures
        balance_in(v.earnings_after_sale(id), v.document(id).author@) == capped_sum(
            v.balance(v.document(id).author@) as int,
            v.document(id).access_price * 7000 / 10000,
        ),
{
    lemma_sale_setting(v, id);
    let d = v.document(id);
    let price = d.access_price as int;
    let treasury = v.config.unwrap().treasury@;
    let keys = account_keys(v.reviewers_of(id));
    assert(0 <= price * 7000 / 10000 <= price && 0 <= price * 2000 / 10000 <= price) by (
    nonlinear_arith)
        requires
            price >= 0,
    ;
    let m1 = credited(v.earnings, d.author@, author_share(price) as i128);
    let m2 = credited(m1, treasury, platform_share(price) as i128);
    assert(balance_in(m2, d.author@) == balance_in(m1, d.author@));
    if keys.len() > 0 {
        let per = reviewer_pool(price) / (keys.len() as int);
        lemma_credit_each_spares(m2, keys, per as i128, d.author@);
    }
}

/// A sale credits each of the document's referees an equal part of the
/// referees' 10% (the pool left after the author's 70% and the platform's
/// 20%, divided by the number of referees, rounded down) on top of what the
/// referee was already owed, when the referee is not the treasury.
pub proof fn law_sale_adds_referee_share(v: ChainView, id: u64, j: int)
    requires
        v.valid(),
        v.initialized(),
        v.has_document(id),
        0 <= j < v.reviewers_of(id).len(),
        v.reviewers_of(id)[j]@ != v.config.unwrap().treasury@,
    ensures
        ({
            let price = v.document(id).access_price as int;
            let pool = price - price * 7000 / 10000 - price * 2000 / 10000;
            let who = v.reviewers_of(id)[j]@;
            balance_in(v.earnings_after_sale(id), who) == capped_sum(
                v.balance(who) as int,
                pool / (v.reviewers_of(id).len() as int),
            )
        }),
{
    lemma_sale_setting(v, id);
    let d = v.document(id);
    let price = d.access_price as int;
    let treasury = v.config.unwrap().treasury@;
    let voters = v.reviewers_of(id);
    let keys = account_keys(voters);
    let who = voters[j]@;
    assert(keys[j] == who);
    assert(who != d.author@) by {
        assert(keys.contains(who));
    }
    let n = keys.len() as int;
    let pool = reviewer_pool(price);
    assert(0 <= price * 7000 / 10000 && 0 <= price * 2000 / 10000 && price * 7000 / 10000
        + price * 2000 / 10000 <= price) by (nonlinear_arith)
        requires
            price >= 0,
    ;
    assert(0 <= pool / n <= pool) by (nonlinear_arith)
        requires
            pool >= 0,
            n > 0,
    ;
    let m1 = credited(v.earnings, d.author@, author_share(price) as i128);
    let m2 = credited(m1, treasury, platform_share(price) as i128);
    assert(balance_in(m2, who) == v.balance(who));
    lemma_credit_each_once(m2, keys, (pool / n) as i128, j);
}

/// A sale changes no balance but those of the author, the treasury and the
/// document's referees.
pub proof fn law_sale_spares_others(v: ChainView, id: u64, who: Seq<char>)
    requires
        v.valid(),
        v.initialized(),
        v.has_document(id),
        who != v.document(id).author@,
        who != v.config.unwrap().treasury@,
        !account_keys(v.reviewers_of(id)).contains(who),
    ensures
        balance_in(v.earnings_after_sale(id), who) == v.balance(who),
{
    let d = v.document(id);
    let price = d.access_price as int;
    let treasury = v.config.unwrap().treasury@;
    let keys = account_keys(v.reviewers_of(id));
    let m1 = credited(v.earnings, d.author@, author_share(price) as i128);
    let m2 = credited(m1, treasury, platform_share(price) as i128);
    if keys.len() > 0 {
        let per = reviewer_pool(price) / (keys.len() as int);
        lemma_credit_each_spares(m2, keys, per as i128, who);
    }
}

/// Registration compares the stake with the minimum configured at
/// initialization (the default minimum only before it): it is refused for an
/// insufficient stake exactly when an unpaused platform gets a new account
/// staking less than that minimum, and an initialized, unpaused platform
/// accepts any new account staking at least the configured minimum.
pub proof fn law_registration_uses_configured_stake(v: ChainView, who: Seq<char>, stake: i128)
    ensures
        v.register_error(who, stake) == Some(Error::InsufficientStake) <==> (!v.paused
            && !v.reviewers.contains_key(who) && stake < (match v.config {
            Some(c) => c.min_stake,
            None => DEFAULT_MIN_STAKE,
        })),
        v.config is Some && !v.paused && !v.reviewers.contains_key(who) && stake
            >= v.config.unwrap().min_stake ==> v.register_error(who, stake) is None,
{
}

/// Recording an AI check keeps the reported similarity score and report
/// whether the check passed or failed, and changes nothing else that the
/// document records of its identity, price or votes.
pub proof fn law_ai_check_records_score(d: Document, passed: bool, score: u32, report: String)
    ensures
        ai_checked(d, passed, score, report).similarity_score == score,
        ai_checked(d, passed, score, report).ai_report_hash == report,
        ai_checked(d, passed, score, report).id == d.id,
        ai_checked(d, passed, score, report).author == d.author,
        ai_checked(d, passed, score, report).access_price == d.access_price,
        ai_checked(d, passed, score, report).approve_votes == d.approve_votes,
        ai_checked(d, passed, score, report).reject_votes == d.reject_votes,
{
}

/// A vote adds one to the referee's vote count and its quality score to the
/// referee's total quality given, and sets the reputation to 50 plus twice
/// the average quality per vote (rounded down), at most 100.
pub proof fn law_vote_accumulates_quality(r: Reviewer, quality_score: u32)
    requires
        profile_counts_valid(r),
        r.review_count < u64::MAX,
        r.total_quality_given + quality_score <= u64::MAX,
    ensures
        after_review(r, quality_score).review_count == r.review_count + 1,
        after_review(r, quality_score).total_quality_given == r.total_quality_given + quality_score,
        after_review(r, quality_score).reputation == ({
            let avg = (r.total_quality_given + quality_score) / (r.review_count + 1);
            if 50 + 2 * avg > 100 {
                100
            } else {
                50 + 2 * avg
            }
        }),
        after_review(r, quality_score).slashed == r.slashed,
        after_review(r, quality_score).stake == r.stake,
{
    let t = (r.total_quality_given + quality_score) as int;
    let c = (r.review_count + 1) as int;
    assert(0 <= t / c && (t / c) * 20 / 10 == 2 * (t / c)) by (nonlinear_arith)
        requires
            t >= 0,
            c > 0,
    ;
    assert(0int * 30 / c == 0) by (nonlinear_arith)
        requires
            c > 0,
    ;
}

/// A sale credits the treasury the platform's 20% and then what is left of
/// the referees' pool after the equal parts (the whole pool when nobody voted
/// on the document), each on top of the treasury's earlier balance, when the
/// treasury is neither the author nor one of the referees.
pub proof fn law_sale_adds_treasury_share(v: ChainView, id: u64)
    requires
        v.valid(),
        v.initialized(),
        v.has_document(id),
        v.document(id).author@ != v.config.unwrap().treasury@,
        !account_keys(v.reviewers_of(id)).contains(v.config.unwrap().treasury@),
    ensures
        ({
            let price = v.document(id).access_price as int;
            let pool = price - price * 7000 / 10000 - price * 2000 / 10000;
            let n = v.reviewers_of(id).len() as int;
            let rest = if n > 0 {
                pool - (pool / n) * n
            } else {
                pool
            };
            let treasury = v.config.unwrap().treasury@;
            balance_in(v.earnings_after_sale(id), treasury) == capped_sum(
                capped_sum(v.balance(treasury) as int, price * 2000 / 10000),
                rest,
            )
        }),
{
    lemma_sale_setting(v, id);
    let d = v.document(id);
    let price = d.access_price as int;
    let treasury = v.config.unwrap().treasury@;
    let keys = account_keys(v.reviewers_of(id));
    let n = keys.len() as int;
    let pool = reviewer_pool(price);
    assert(0 <= price * 7000 / 10000 && 0 <= price * 2000 / 10000 && price * 7000 / 10000
        + price * 2000 / 10000 <= price) by (nonlinear_arith)
        requires
            price >= 0,
    ;
    let m1 = credited(v.earnings, d.author@, author_share(price) as i128);
    let m2 = credited(m1, treasury, platform_share(price) as i128);
    assert(balance_in(m1, treasury) == v.balance(treasury));
    if n > 0 {
        assert(0 <= pool - (pool / n) * n <= pool) by (nonlinear_arith)
            requires
                pool >= 0,
                n > 0,
        ;
        lemma_credit_each_spares(m2, keys, (pool / n) as i128, treasury);
    }
}

/// A vote counts exactly once, as an approval or a rejection as cast.
pub proof fn law_vote_counts_once(d: Document, decision: Decision, ledger: u32)
    requires
        d.approve_votes + d.reject_votes < u32::MAX,
    ensures
        after_vote(d, decision, ledger).approve_votes == d.approve_votes + (if decision
            == Decision::Approve {
            1int
        } else {
            0int
        }),
        after_vote(d, decision, ledger).reject_votes == d.reject_votes + (if decision
            == Decision::Reject {
            1int
        } else {
            0int
        }),
        total_votes(after_vote(d, decision, ledger)) == total_votes(d) + 1,
        after_vote(d, decision, ledger).id == d.id,
        after_vote(d, decision, ledger).author == d.author,
{
}

/// Slashing a referee credits the treasury the referee's positive stake on
/// top of the treasury's earlier balance, and changes no other balance.
pub proof fn law_slash_forfeits_stake(v: ChainView, who: Seq<char>, other: Seq<char>)
    requires
        v.valid(),
        v.initialized(),
        v.reviewers.contains_key(who),
        other != v.config.unwrap().treasury@,
    ensures
        ({
            let treasury = v.config.unwrap().treasury@;
            let stake = v.reviewers[who].stake as int;
            balance_in(v.earnings_after_slash(who), treasury) == capped_sum(
                v.balance(treasury) as int,
                if stake > 0 {
                    stake
                } else {
                    0
                },
            )
        }),
        balance_in(v.earnings_after_slash(who), other) == v.balance(other),
{
    let treasury = v.config.unwrap().treasury@;
    if v.earnings.contains_key(treasury) {
        assert(v.earnings[treasury] >= 0);
    }
}

} // verus!
