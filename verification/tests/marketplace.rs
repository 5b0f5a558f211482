use acadchain::rules::{char_len, publication_quorum_met, recompute_reputation, royalty_split, saturating_add};
use acadchain::types::{AccountDoc, ACCESS_TTL_LEDGERS, DEFAULT_MIN_STAKE};
use acadchain::{AcadChain, ChainParts, Address, Decision, DocStatus, DocType, Effect, Error, Event, ReviewRecord, Reviewer};

const LEDGER: u32 = 5_000;

fn addr(key: &str) -> Address {
    Address { key: key.to_string() }
}

fn text(s: &str) -> String {
    s.to_string()
}

fn setup() -> AcadChain {
    let mut chain = AcadChain::new();
    chain
        .initialize(addr("GADMIN"), addr("GTREASURY"), addr("CXLM"), 10_000_000)
        .unwrap();
    chain
}

fn submit(chain: &mut AcadChain, author: &str, price: i128) -> Result<u64, Error> {
    chain.submit_document(
        addr(author),
        text("A title"),
        text("An abstract"),
        text("bafybeigdyrzt5sfp7udm7hu76uh7y26nf3e"),
        2,
        price,
        text("en"),
        text("Some University"),
        LEDGER,
    )
}

/// A published document by GAUTHOR, approved by the given referees.
fn published(chain: &mut AcadChain, reviewers: &[&str], price: i128) -> u64 {
    let id = submit(chain, "GAUTHOR", price).unwrap();
    chain.record_ai_verification(id, true, 12, text("report")).unwrap();
    for r in reviewers {
        if chain.get_reviewer(&addr(r)).is_err() {
            chain.register_reviewer(addr(r), 10_000_000, text("cs"), LEDGER).unwrap();
        }
        chain.review_document(addr(r), id, Decision::Approve, text("fine"), 8, LEDGER).unwrap();
    }
    id
}

#[test]
fn error_codes_match_the_published_numbers() {
    assert_eq!(Error::AlreadyInitialized.code(), 1);
    assert_eq!(Error::NotInitialized.code(), 2);
    assert_eq!(Error::Unauthorized.code(), 10);
    assert_eq!(Error::ContractPaused.code(), 11);
    assert_eq!(Error::DocumentNotFound.code(), 20);
    assert_eq!(Error::NotReadyToFinalize.code(), 26);
    assert_eq!(Error::InvalidSimilarityScore.code(), 31);
    assert_eq!(Error::ReviewerSlashed.code(), 47);
    assert_eq!(Error::NoEarnings.code(), 51);
    assert_eq!(Error::InvalidInput.code(), 90);
}

#[test]
fn doc_type_numbers() {
    assert_eq!(AcadChain::u32_to_doc_type(0), DocType::Thesis);
    assert_eq!(AcadChain::u32_to_doc_type(1), DocType::Dissertation);
    assert_eq!(AcadChain::u32_to_doc_type(2), DocType::ResearchPaper);
    assert_eq!(AcadChain::u32_to_doc_type(3), DocType::TechnicalReport);
    assert_eq!(AcadChain::u32_to_doc_type(99), DocType::TechnicalReport);
}

#[test]
fn royalty_split_values() {
    assert_eq!(royalty_split(10_000_000), (7_000_000, 2_000_000, 1_000_000));
    assert_eq!(royalty_split(10_000_001), (7_000_000, 2_000_000, 1_000_001));
    assert_eq!(royalty_split(9_999), (6_999, 1_999, 1_001));
    let huge = i128::MAX;
    let (a, p, r) = royalty_split(huge);
    assert_eq!(a + p + r, huge);
    assert_eq!(a, 119098828422328462212181112601118874008);
}

#[test]
fn saturating_balances() {
    assert_eq!(saturating_add(i128::MAX, 1), i128::MAX);
    assert_eq!(saturating_add(i128::MIN, -1), i128::MIN);
    assert_eq!(saturating_add(40, 2), 42);
}

#[test]
fn length_counts_characters() {
    assert_eq!(char_len(&text("abc")), 3);
    assert_eq!(char_len(&text("é")), 1);
    assert_eq!(char_len(&"ệ".repeat(100)), 100);
}

#[test]
fn quorum_is_more_than_half_with_two_approvals() {
    assert!(publication_quorum_met(2, 0));
    assert!(publication_quorum_met(2, 1));
    assert!(!publication_quorum_met(2, 2));
    assert!(!publication_quorum_met(1, 0));
    assert!(publication_quorum_met(5001, 5000));
    assert!(!publication_quorum_met(5000, 5000));
    assert!(publication_quorum_met(u32::MAX, u32::MAX - 1));
}

#[test]
fn reputation_formula() {
    let mut rev = Reviewer {
        address: addr("GREV"),
        stake: 1,
        expertise: text("x"),
        review_count: 2,
        total_quality_given: 17,
        successful_approvals: 0,
        reputation: 50,
        slashed: false,
        registered_at: 0,
    };
    recompute_reputation(&mut rev);
    // 50 + 0 + (17 / 2) * 20 / 10 = 50 + 16
    assert_eq!(rev.reputation, 66);
    rev.successful_approvals = 2;
    rev.total_quality_given = 20;
    recompute_reputation(&mut rev);
    assert_eq!(rev.reputation, 100);
}

#[test]
fn reputation_after_a_review() {
    let mut chain = setup();
    let id = submit(&mut chain, "GAUTHOR", 10_000_000).unwrap();
    chain.record_ai_verification(id, true, 0, text("r")).unwrap();
    chain.register_reviewer(addr("GREV"), 10_000_000, text("cs"), LEDGER).unwrap();
    chain.review_document(addr("GREV"), id, Decision::Approve, text("c"), 9, LEDGER + 1).unwrap();
    let p = chain.get_reviewer(&addr("GREV")).unwrap();
    assert_eq!(p.review_count, 1);
    assert_eq!(p.total_quality_given, 9);
    assert_eq!(p.reputation, 68);
    let rec = chain.get_review_record(&addr("GREV"), id).unwrap();
    assert_eq!(rec.decision, Decision::Approve);
    assert_eq!(rec.quality_score, 9);
    assert_eq!(rec.submitted_at, LEDGER + 1);
    assert_eq!(chain.get_review_record(&addr("GOTHER"), id).unwrap_err(), Error::ReviewerNotFound);
}

#[test]
fn sale_splits_price_between_author_treasury_and_reviewers() {
    let mut chain = setup();
    let id = published(&mut chain, &["GREV1", "GREV2"], 10_000_000);
    let expiry = chain.purchase_access(addr("GREADER"), id, LEDGER).unwrap();
    assert_eq!(expiry, (LEDGER + ACCESS_TTL_LEDGERS) as u64);
    assert_eq!(chain.get_earnings(&addr("GAUTHOR")), 7_000_000);
    assert_eq!(chain.get_earnings(&addr("GTREASURY")), 2_000_000);
    assert_eq!(chain.get_earnings(&addr("GREV1")), 500_000);
    assert_eq!(chain.get_earnings(&addr("GREV2")), 500_000);
    let doc = chain.get_document(id).unwrap();
    assert_eq!(doc.total_earned, 10_000_000);
    assert_eq!(doc.access_count, 1);
}

#[test]
fn sale_rounding_remainder_goes_to_treasury() {
    let mut chain = setup();
    let id = submit(&mut chain, "GAUTHOR", 10_000_000).unwrap();
    chain.record_ai_verification(id, true, 12, text("report")).unwrap();
    for r in ["GREV1", "GREV2", "GREV3"] {
        chain.register_reviewer(addr(r), 10_000_000, text("cs"), LEDGER).unwrap();
    }
    chain.review_document(addr("GREV1"), id, Decision::Approve, text("a"), 8, LEDGER).unwrap();
    chain.review_document(addr("GREV2"), id, Decision::Reject, text("b"), 8, LEDGER).unwrap();
    chain.review_document(addr("GREV3"), id, Decision::Approve, text("c"), 8, LEDGER).unwrap();
    assert_eq!(chain.get_document_status(id).unwrap(), DocStatus::Published);
    chain.purchase_access(addr("GREADER"), id, LEDGER).unwrap();
    assert_eq!(chain.get_earnings(&addr("GREV1")), 333_333);
    assert_eq!(chain.get_earnings(&addr("GREV2")), 333_333);
    assert_eq!(chain.get_earnings(&addr("GREV3")), 333_333);
    assert_eq!(chain.get_earnings(&addr("GTREASURY")), 2_000_001);
}

#[test]
fn access_runs_for_the_ttl_and_cannot_be_bought_twice() {
    let mut chain = setup();
    let id = published(&mut chain, &["GREV1", "GREV2"], 10_000_000);
    let reader = addr("GREADER");
    chain.purchase_access(reader.clone(), id, LEDGER).unwrap();
    assert!(chain.has_access(&reader, id, LEDGER));
    assert!(chain.has_access(&reader, id, LEDGER + ACCESS_TTL_LEDGERS - 1));
    assert!(!chain.has_access(&reader, id, LEDGER + ACCESS_TTL_LEDGERS));
    assert_eq!(chain.purchase_access(reader.clone(), id, LEDGER + 10).unwrap_err(), Error::AlreadyHasAccess);
    let again = chain.purchase_access(reader, id, LEDGER + ACCESS_TTL_LEDGERS).unwrap();
    assert_eq!(again, (LEDGER + 2 * ACCESS_TTL_LEDGERS) as u64);
    assert_eq!(chain.get_document(id).unwrap().access_count, 2);
}

#[test]
fn purchase_refused_for_unpublished_or_missing_documents() {
    let mut chain = setup();
    let id = submit(&mut chain, "GAUTHOR", 10_000_000).unwrap();
    assert_eq!(chain.purchase_access(addr("GREADER"), id, LEDGER).unwrap_err(), Error::DocumentNotPublished);
    assert_eq!(chain.purchase_access(addr("GREADER"), 7, LEDGER).unwrap_err(), Error::DocumentNotFound);
}

#[test]
fn withdraw_pays_out_and_clears_the_balance() {
    let mut chain = setup();
    assert_eq!(chain.withdraw_earnings(addr("GAUTHOR")).unwrap_err(), Error::NoEarnings);
    let id = published(&mut chain, &["GREV1", "GREV2"], 10_000_000);
    chain.purchase_access(addr("GREADER"), id, LEDGER).unwrap();
    let _ = chain.take_effects();
    chain.withdraw_earnings(addr("GAUTHOR")).unwrap();
    assert_eq!(chain.get_earnings(&addr("GAUTHOR")), 0);
    let effects = chain.take_effects();
    assert_eq!(effects.len(), 2);
    match &effects[0] {
        Effect::Pay { token, to, amount } => {
            assert_eq!(*token, addr("CXLM"));
            assert_eq!(*to, addr("GAUTHOR"));
            assert_eq!(*amount, 7_000_000);
        },
        other => panic!("unexpected effect {:?}", other),
    }
    assert!(matches!(&effects[1], Effect::Publish(Event::Withdrawn { amount: 7_000_000, .. })));
    assert_eq!(chain.withdraw_earnings(addr("GAUTHOR")).unwrap_err(), Error::NoEarnings);
}

#[test]
fn registration_collects_the_stake() {
    let mut chain = setup();
    let _ = chain.take_effects();
    chain.register_reviewer(addr("GREV"), 12_000_000, text("cs"), LEDGER).unwrap();
    let effects = chain.take_effects();
    assert_eq!(effects.len(), 2);
    match &effects[0] {
        Effect::Collect { token, from, amount } => {
            assert_eq!(*token, addr("CXLM"));
            assert_eq!(*from, addr("GREV"));
            assert_eq!(*amount, 12_000_000);
        },
        other => panic!("unexpected effect {:?}", other),
    }
    assert!(chain.take_effects().is_empty());
}

#[test]
fn slashing_forfeits_the_stake_to_the_treasury() {
    let mut chain = setup();
    chain.register_reviewer(addr("GREV"), 15_000_000, text("cs"), LEDGER).unwrap();
    chain.slash_reviewer(addr("GREV"), text("fake reviews")).unwrap();
    assert_eq!(chain.get_earnings(&addr("GTREASURY")), 15_000_000);
    // a second slash forfeits nothing more
    chain.slash_reviewer(addr("GREV"), text("again")).unwrap();
    assert_eq!(chain.get_earnings(&addr("GTREASURY")), 15_000_000);
    assert_eq!(chain.slash_reviewer(addr("GNOBODY"), text("x")).unwrap_err(), Error::ReviewerNotFound);
}

#[test]
fn admin_operations_need_initialization() {
    let mut chain = AcadChain::new();
    assert_eq!(chain.pause().unwrap_err(), Error::NotInitialized);
    assert_eq!(chain.unpause().unwrap_err(), Error::NotInitialized);
    assert_eq!(chain.set_treasury(addr("GT")).unwrap_err(), Error::NotInitialized);
    assert_eq!(chain.set_min_stake(5).unwrap_err(), Error::NotInitialized);
    assert_eq!(chain.revoke_document(1).unwrap_err(), Error::NotInitialized);
    assert_eq!(chain.record_ai_verification(1, true, 1, text("r")).unwrap_err(), Error::NotInitialized);
    assert_eq!(chain.slash_reviewer(addr("GREV"), text("r")).unwrap_err(), Error::NotInitialized);
}

#[test]
fn registration_before_initialization_uses_the_default_minimum() {
    let mut chain = AcadChain::new();
    assert_eq!(
        chain.register_reviewer(addr("GREV"), DEFAULT_MIN_STAKE - 1, text("cs"), LEDGER).unwrap_err(),
        Error::InsufficientStake
    );
    assert_eq!(
        chain.register_reviewer(addr("GREV"), DEFAULT_MIN_STAKE, text("cs"), LEDGER).unwrap_err(),
        Error::NotInitialized
    );
}

#[test]
fn initialization_restarts_document_numbering() {
    let mut chain = AcadChain::new();
    assert_eq!(submit(&mut chain, "GEARLY", 10_000_000).unwrap(), 1);
    assert_eq!(submit(&mut chain, "GEARLY", 10_000_000).unwrap(), 2);
    chain.initialize(addr("GADMIN"), addr("GTREASURY"), addr("CXLM"), 10_000_000).unwrap();
    assert_eq!(chain.get_document_count(), 0);
    assert_eq!(chain.get_document(2).unwrap().author, addr("GEARLY"));
    assert_eq!(submit(&mut chain, "GLATE", 10_000_000).unwrap(), 1);
    assert_eq!(chain.get_document(1).unwrap().author, addr("GLATE"));
    assert_eq!(chain.get_document(2).unwrap().author, addr("GEARLY"));
}

#[test]
fn submission_input_checks() {
    let mut chain = setup();
    let long_title = "t".repeat(257);
    let r = chain.submit_document(addr("GA"), long_title, text("a"), text("bafybeigdyrzt5"), 0, 10_000_000, text("en"), text("U"), LEDGER);
    assert_eq!(r.unwrap_err(), Error::TitleTooLong);
    let wide_title = "é".repeat(257);
    let r = chain.submit_document(addr("GA"), wide_title, text("a"), text("bafybeigdyrzt5"), 0, 10_000_000, text("en"), text("U"), LEDGER);
    assert_eq!(r.unwrap_err(), Error::TitleTooLong);
    let wide_ok = "ệ".repeat(256);
    let r = chain.submit_document(addr("GA"), wide_ok, "ệ".repeat(1024), "ệ".repeat(10), 0, 1_000_000, text("en"), text("U"), LEDGER);
    assert_eq!(r.unwrap(), 1);
    let ok_title = "t".repeat(256);
    let r = chain.submit_document(addr("GA"), ok_title, "a".repeat(1024), text("0123456789"), 0, 1_000_000, text("en"), text("U"), LEDGER);
    assert_eq!(r.unwrap(), 2);
    let r = chain.submit_document(addr("GA"), text("t"), "a".repeat(1025), text("bafybeigdyrzt5"), 0, 10_000_000, text("en"), text("U"), LEDGER);
    assert_eq!(r.unwrap_err(), Error::AbstractTooLong);
    let r = chain.submit_document(addr("GA"), text("t"), text("a"), text("012345678"), 0, 10_000_000, text("en"), text("U"), LEDGER);
    assert_eq!(r.unwrap_err(), Error::InvalidIpfsHash);
    let r = chain.submit_document(addr("GA"), text("t"), text("a"), text("0123456789"), 0, 999_999, text("en"), text("U"), LEDGER);
    assert_eq!(r.unwrap_err(), Error::InvalidAccessPrice);
    assert_eq!(chain.get_document_count(), 2);
}

#[test]
fn ai_check_refusals() {
    let mut chain = setup();
    let id = submit(&mut chain, "GAUTHOR", 10_000_000).unwrap();
    assert_eq!(chain.record_ai_verification(id, true, 101, text("r")).unwrap_err(), Error::InvalidSimilarityScore);
    assert_eq!(chain.record_ai_verification(9, true, 10, text("r")).unwrap_err(), Error::DocumentNotFound);
    chain.record_ai_verification(id, true, 30, text("r")).unwrap();
    assert_eq!(chain.get_document_status(id).unwrap(), DocStatus::PendingReview);
    assert_eq!(chain.get_document(id).unwrap().ai_report_hash, text("r"));
    assert_eq!(chain.record_ai_verification(id, true, 10, text("r")).unwrap_err(), Error::NotPendingAiVerification);
    let id2 = submit(&mut chain, "GAUTHOR", 10_000_000).unwrap();
    chain.record_ai_verification(id2, true, 31, text("r")).unwrap();
    assert_eq!(chain.get_document_status(id2).unwrap(), DocStatus::RejectedByAi);
}

#[test]
fn review_refusals() {
    let mut chain = setup();
    let id = submit(&mut chain, "GAUTHOR", 10_000_000).unwrap();
    assert_eq!(
        chain.review_document(addr("GREV"), id, Decision::Approve, text("c"), 5, LEDGER).unwrap_err(),
        Error::ReviewerNotFound
    );
    chain.register_reviewer(addr("GREV"), 10_000_000, text("cs"), LEDGER).unwrap();
    assert_eq!(
        chain.register_reviewer(addr("GREV"), 10_000_000, text("cs"), LEDGER).unwrap_err(),
        Error::ReviewerAlreadyExists
    );
    assert_eq!(
        chain.review_document(addr("GREV"), id, Decision::Approve, text("c"), 0, LEDGER).unwrap_err(),
        Error::InvalidQualityScore
    );
    assert_eq!(
        chain.review_document(addr("GREV"), id, Decision::Approve, text("c"), 11, LEDGER).unwrap_err(),
        Error::InvalidQualityScore
    );
    assert_eq!(
        chain.review_document(addr("GREV"), 42, Decision::Approve, text("c"), 5, LEDGER).unwrap_err(),
        Error::DocumentNotFound
    );
    assert_eq!(
        chain.review_document(addr("GREV"), id, Decision::Approve, text("c"), 5, LEDGER).unwrap_err(),
        Error::NotPendingReview
    );
    chain.register_reviewer(addr("GAUTHOR"), 10_000_000, text("cs"), LEDGER).unwrap();
    chain.record_ai_verification(id, true, 1, text("r")).unwrap();
    assert_eq!(
        chain.review_document(addr("GAUTHOR"), id, Decision::Approve, text("c"), 5, LEDGER).unwrap_err(),
        Error::CannotReviewOwnDoc
    );
    chain.review_document(addr("GREV"), id, Decision::Reject, text("c"), 5, LEDGER).unwrap();
    assert_eq!(
        chain.review_document(addr("GREV"), id, Decision::Approve, text("c"), 5, LEDGER).unwrap_err(),
        Error::AlreadyReviewed
    );
    chain.slash_reviewer(addr("GREV"), text("x")).unwrap();
    assert_eq!(
        chain.review_document(addr("GREV"), id, Decision::Approve, text("c"), 5, LEDGER).unwrap_err(),
        Error::ReviewerSlashed
    );
}

#[test]
fn pause_blocks_activity_until_unpaused() {
    let mut chain = setup();
    let id = published(&mut chain, &["GREV1", "GREV2"], 10_000_000);
    chain.pause().unwrap();
    assert_eq!(submit(&mut chain, "GAUTHOR", 10_000_000).unwrap_err(), Error::ContractPaused);
    assert_eq!(
        chain.register_reviewer(addr("GREV3"), 10_000_000, text("cs"), LEDGER).unwrap_err(),
        Error::ContractPaused
    );
    assert_eq!(chain.purchase_access(addr("GREADER"), id, LEDGER).unwrap_err(), Error::ContractPaused);
    chain.unpause().unwrap();
    chain.purchase_access(addr("GREADER"), id, LEDGER).unwrap();
}

#[test]
fn manual_finalization() {
    let mut chain = setup();
    let id = submit(&mut chain, "GAUTHOR", 10_000_000).unwrap();
    assert_eq!(chain.finalize_document(id, LEDGER).unwrap_err(), Error::NotReadyToFinalize);
    assert_eq!(chain.finalize_document(77, LEDGER).unwrap_err(), Error::DocumentNotFound);
    chain.record_ai_verification(id, true, 1, text("r")).unwrap();
    chain.register_reviewer(addr("GREV1"), 10_000_000, text("cs"), LEDGER).unwrap();
    chain.register_reviewer(addr("GREV2"), 10_000_000, text("cs"), LEDGER).unwrap();
    chain.review_document(addr("GREV1"), id, Decision::Approve, text("c"), 5, LEDGER).unwrap();
    assert_eq!(chain.finalize_document(id, LEDGER).unwrap_err(), Error::NotReadyToFinalize);
    chain.review_document(addr("GREV2"), id, Decision::Reject, text("c"), 5, LEDGER).unwrap();
    assert_eq!(chain.get_document_status(id).unwrap(), DocStatus::UnderReview);
    chain.finalize_document(id, LEDGER + 3).unwrap();
    let doc = chain.get_document(id).unwrap();
    assert_eq!(doc.status, DocStatus::RejectedByReviewers);
    assert_eq!(doc.published_at, 0);
    assert_eq!(chain.finalize_document(id, LEDGER).unwrap_err(), Error::NotReadyToFinalize);
}

#[test]
fn settings_changes_take_effect() {
    let mut chain = setup();
    chain.set_min_stake(20_000_000).unwrap();
    assert_eq!(
        chain.register_reviewer(addr("GREV"), 10_000_000, text("cs"), LEDGER).unwrap_err(),
        Error::InsufficientStake
    );
    chain.set_treasury(addr("GNEWTREASURY")).unwrap();
    chain.register_reviewer(addr("GREV"), 20_000_000, text("cs"), LEDGER).unwrap();
    chain.slash_reviewer(addr("GREV"), text("x")).unwrap();
    assert_eq!(chain.get_earnings(&addr("GNEWTREASURY")), 20_000_000);
    assert_eq!(chain.get_earnings(&addr("GTREASURY")), 0);
}

#[test]
fn events_of_a_publication() {
    let mut chain = setup();
    let _ = chain.take_effects();
    let id = published(&mut chain, &["GREV1", "GREV2"], 10_000_000);
    let effects = chain.take_effects();
    let last = effects.last().unwrap();
    match last {
        Effect::Publish(Event::DocumentPublished { doc_id, author }) => {
            assert_eq!(*doc_id, id);
            assert_eq!(*author, addr("GAUTHOR"));
        },
        other => panic!("unexpected effect {:?}", other),
    }
    assert_eq!(chain.get_document(id).unwrap().published_at, LEDGER);
}

#[test]
fn revoked_documents_cannot_be_bought() {
    let mut chain = setup();
    let id = published(&mut chain, &["GREV1", "GREV2"], 10_000_000);
    chain.revoke_document(id).unwrap();
    assert_eq!(chain.purchase_access(addr("GREADER"), id, LEDGER).unwrap_err(), Error::DocumentNotPublished);
    assert_eq!(chain.revoke_document(99).unwrap_err(), Error::DocumentNotFound);
}

#[test]
fn only_published_documents_are_revoked() {
    let mut chain = setup();
    let id = submit(&mut chain, "GAUTHOR", 10_000_000).unwrap();
    assert_eq!(chain.revoke_document(id).unwrap_err(), Error::DocumentNotPublished);
    assert_eq!(chain.get_document_status(id).unwrap(), DocStatus::PendingAiVerification);
    let id = published(&mut chain, &["GREV1", "GREV2"], 10_000_000);
    chain.revoke_document(id).unwrap();
    assert_eq!(chain.revoke_document(id).unwrap_err(), Error::DocumentNotPublished);
    assert_eq!(chain.get_document_status(id).unwrap(), DocStatus::Revoked);
}

#[test]
fn long_comments_are_refused() {
    let mut chain = setup();
    let id = submit(&mut chain, "GAUTHOR", 10_000_000).unwrap();
    chain.record_ai_verification(id, true, 1, text("r")).unwrap();
    chain.register_reviewer(addr("GREV"), 10_000_000, text("cs"), LEDGER).unwrap();
    assert_eq!(
        chain.review_document(addr("GREV"), id, Decision::Approve, "a".repeat(2049), 5, LEDGER).unwrap_err(),
        Error::InvalidInput
    );
    assert_eq!(chain.get_document(id).unwrap().approve_votes, 0);
    assert!(chain.get_review_record(&addr("GREV"), id).is_err());
    chain.review_document(addr("GREV"), id, Decision::Approve, "ệ".repeat(2048), 5, LEDGER).unwrap();
    assert_eq!(chain.get_document(id).unwrap().approve_votes, 1);
}

#[test]
fn two_of_three_approvals_publish() {
    let mut chain = setup();
    let id = submit(&mut chain, "GAUTHOR", 10_000_000).unwrap();
    chain.record_ai_verification(id, true, 1, text("r")).unwrap();
    for r in ["GREV1", "GREV2", "GREV3"] {
        chain.register_reviewer(addr(r), 10_000_000, text("cs"), LEDGER).unwrap();
    }
    chain.review_document(addr("GREV1"), id, Decision::Reject, text("c"), 5, LEDGER).unwrap();
    chain.review_document(addr("GREV2"), id, Decision::Approve, text("c"), 5, LEDGER).unwrap();
    assert_eq!(chain.get_document_status(id).unwrap(), DocStatus::UnderReview);
    chain.review_document(addr("GREV3"), id, Decision::Approve, text("c"), 5, LEDGER + 2).unwrap();
    let doc = chain.get_document(id).unwrap();
    assert_eq!(doc.status, DocStatus::Published);
    assert_eq!(doc.published_at, LEDGER + 2);
}

#[test]
fn stored_state_reloads_unchanged() {
    let mut chain = setup();
    let id = published(&mut chain, &["GREV1", "GREV2"], 10_000_000);
    chain.purchase_access(addr("GREADER"), id, LEDGER).unwrap();
    let parts: ChainParts = chain.into_parts();
    let mut reloaded = AcadChain::from_parts(parts).unwrap();
    assert!(reloaded.take_effects().is_empty());
    assert_eq!(reloaded.get_document_count(), 1);
    assert_eq!(reloaded.get_document_status(id).unwrap(), DocStatus::Published);
    assert_eq!(reloaded.get_earnings(&addr("GAUTHOR")), 7_000_000);
    assert!(reloaded.has_access(&addr("GREADER"), id, LEDGER));
    assert_eq!(
        reloaded.purchase_access(addr("GREADER"), id, LEDGER).unwrap_err(),
        Error::AlreadyHasAccess
    );
}

#[test]
fn inconsistent_stored_state_is_refused() {
    let mut chain = setup();
    chain.register_reviewer(addr("GREV"), 10_000_000, text("cs"), LEDGER).unwrap();
    let mut parts = chain.into_parts();
    let copy = Reviewer {
        address: addr("GREV"),
        stake: 1,
        expertise: text("dup"),
        review_count: 0,
        total_quality_given: 0,
        successful_approvals: 0,
        reputation: 50,
        slashed: false,
        registered_at: 0,
    };
    parts.reviewers.push((addr("GREV"), copy));
    assert!(AcadChain::from_parts(parts).is_none());

    let mut chain = setup();
    submit(&mut chain, "GAUTHOR", 10_000_000).unwrap();
    let mut parts = chain.into_parts();
    parts.docs[0].status = DocStatus::Published;
    assert!(AcadChain::from_parts(parts).is_none());

    let mut chain = setup();
    submit(&mut chain, "GAUTHOR", 10_000_000).unwrap();
    let mut parts = chain.into_parts();
    parts.earnings.push((addr("GX"), -5));
    assert!(AcadChain::from_parts(parts).is_none());
}

#[test]
fn vote_records_are_the_counted_votes() {
    let mut chain = setup();
    chain.register_reviewer(addr("GIDLE"), 10_000_000, text("cs"), LEDGER).unwrap();
    let id = published(&mut chain, &["GREV1", "GREV2"], 10_000_000);
    let doc = chain.get_document(id).unwrap();
    assert_eq!(doc.approve_votes + doc.reject_votes, 2);
    assert!(chain.get_review_record(&addr("GREV1"), id).is_ok());
    assert!(chain.get_review_record(&addr("GREV2"), id).is_ok());
    assert!(chain.get_review_record(&addr("GIDLE"), id).is_err());
    assert!(chain.get_review_record(&addr("GAUTHOR"), id).is_err());
    let parts = chain.into_parts();
    let held = parts.review_records.iter().filter(|(k, _)| k.doc_id == id).count();
    assert_eq!(held, 2);
    assert_eq!(parts.doc_reviewers[(id - 1) as usize], vec![addr("GREV1"), addr("GREV2")]);
}

#[test]
fn records_of_a_renumbered_document_stay() {
    let mut chain = AcadChain::new();
    let early = submit(&mut chain, "GEARLY", 10_000_000).unwrap();
    chain.initialize(addr("GADMIN"), addr("GTREASURY"), addr("CXLM"), 10_000_000).unwrap();
    chain.record_ai_verification(early, true, 3, text("r")).unwrap();
    chain.register_reviewer(addr("GREV"), 10_000_000, text("cs"), LEDGER).unwrap();
    chain.review_document(addr("GREV"), early, Decision::Approve, text("c"), 6, LEDGER).unwrap();
    let late = submit(&mut chain, "GLATE", 10_000_000).unwrap();
    assert_eq!(late, early);
    let doc = chain.get_document(late).unwrap();
    assert_eq!(doc.author, addr("GLATE"));
    assert_eq!(doc.approve_votes + doc.reject_votes, 0);
    assert!(chain.get_review_record(&addr("GREV"), late).is_ok());
}

#[test]
fn access_ends_exactly_at_the_bought_expiry() {
    let mut chain = setup();
    let id = published(&mut chain, &["GREV1", "GREV2"], 10_000_000);
    let other = published(&mut chain, &["GREV1", "GREV2"], 10_000_000);
    let reader = addr("GREADER");
    let expiry = chain.purchase_access(reader.clone(), id, LEDGER).unwrap() as u32;
    assert_eq!(expiry, LEDGER + ACCESS_TTL_LEDGERS);
    chain.purchase_access(addr("GOTHER"), id, LEDGER + 5).unwrap();
    chain.purchase_access(reader.clone(), other, LEDGER + 7).unwrap();
    chain.pause().unwrap();
    chain.unpause().unwrap();
    chain.slash_reviewer(addr("GREV1"), text("spam")).unwrap();
    chain.revoke_document(id).unwrap();
    assert!(chain.has_access(&reader, id, expiry - 1));
    assert!(!chain.has_access(&reader, id, expiry));
    assert!(!chain.has_access(&reader, id, expiry + 100));
}

#[test]
fn stored_state_with_unlisted_records_is_refused() {
    let mut chain = setup();
    let id = published(&mut chain, &["GREV1", "GREV2"], 10_000_000);
    let mut parts = chain.into_parts();
    let stray = ReviewRecord {
        reviewer: addr("GSTRAY"),
        doc_id: id,
        decision: Decision::Reject,
        comments: text("late"),
        quality_score: 3,
        submitted_at: LEDGER,
    };
    parts.review_records.push((AccountDoc { account: addr("GSTRAY"), doc_id: id }, stray));
    assert!(AcadChain::from_parts(parts).is_none());

    let mut chain = AcadChain::new();
    submit(&mut chain, "GEARLY", 10_000_000).unwrap();
    submit(&mut chain, "GEARLY", 10_000_000).unwrap();
    chain.initialize(addr("GADMIN"), addr("GTREASURY"), addr("CXLM"), 10_000_000).unwrap();
    submit(&mut chain, "GLATE", 10_000_000).unwrap();
    let parts = chain.into_parts();
    assert_eq!(parts.pre_init_documents, 2);
    let mut altered = AcadChain::from_parts(parts).unwrap().into_parts();
    altered.pre_init_documents = 0;
    assert!(AcadChain::from_parts(altered).is_none());
}
