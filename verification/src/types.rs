//! Values of the academic document marketplace: accounts, documents,
//! referee profiles, vote records, errors and the effects that an
//! operation asks its host to carry out.
use vstd::prelude::*;
use crate::assoc::MapKey;

verus! {

/// Minimum access price: 0.1 XLM in stroops (1 XLM = 10_000_000 stroops).
pub const MIN_ACCESS_PRICE: i128 = 1_000_000;

/// Minimum referee stake when none has been configured: 1 XLM.
pub const DEFAULT_MIN_STAKE: i128 = 10_000_000;

/// How long a purchase grants access: about 30 days of ledgers at about 5 s each.
pub const ACCESS_TTL_LEDGERS: u32 = 518_400;

/// Highest plagiarism similarity (percent) that still passes the AI check.
pub const MAX_SIMILARITY: u32 = 30;

/// Approvals needed before a document can be published.
pub const MIN_APPROVALS: u32 = 2;

/// Number of votes after which the referees' verdict is taken in any case.
pub const REVIEW_PANEL_SIZE: u32 = 3;

/// Royalty shares, in basis points of the price.
pub const AUTHOR_BPS: i128 = 7_000;
pub const PLATFORM_BPS: i128 = 2_000;
pub const REVIEWER_BPS: i128 = 1_000;
pub const BPS_DENOM: i128 = 10_000;

/// Longest accepted title and abstract, shortest accepted IPFS hash, and
/// longest accepted vote comment, in characters.
pub const MAX_TITLE_CHARS: usize = 256;
pub const MAX_ABSTRACT_CHARS: usize = 1024;
pub const MIN_IPFS_HASH_CHARS: usize = 10;
pub const MAX_COMMENT_CHARS: usize = 2048;

/// Similarity score of a document that has not been checked yet.
pub const SIMILARITY_UNCHECKED: u32 = 255;

/// Reputation of a newly registered referee.
pub const STARTING_REPUTATION: u32 = 50;

/// Why an operation was refused.
#[derive(Clone, Copy, Debug, PartialEq, Eq, PartialOrd, Ord, Structural)]
pub enum Error {
    AlreadyInitialized,
    NotInitialized,
    Unauthorized,
    ContractPaused,
    DocumentNotFound,
    InvalidAccessPrice,
    TitleTooLong,
    AbstractTooLong,
    InvalidIpfsHash,
    DocumentNotPublished,
    NotReadyToFinalize,
    NotPendingAiVerification,
    InvalidSimilarityScore,
    ReviewerAlreadyExists,
    ReviewerNotFound,
    InsufficientStake,
    AlreadyReviewed,
    CannotReviewOwnDoc,
    NotPendingReview,
    InvalidQualityScore,
    ReviewerSlashed,
    AlreadyHasAccess,
    NoEarnings,
    InvalidInput,
}

pub open spec fn error_code(e: Error) -> u32 {
    match e {
        Error::AlreadyInitialized => 1,
        Error::NotInitialized => 2,
        Error::Unauthorized => 10,
        Error::ContractPaused => 11,
        Error::DocumentNotFound => 20,
        Error::InvalidAccessPrice => 21,
        Error::TitleTooLong => 22,
        Error::AbstractTooLong => 23,
        Error::InvalidIpfsHash => 24,
        Error::DocumentNotPublished => 25,
        Error::NotReadyToFinalize => 26,
        Error::NotPendingAiVerification => 30,
        Error::InvalidSimilarityScore => 31,
        Error::ReviewerAlreadyExists => 40,
        Error::ReviewerNotFound => 41,
        Error::InsufficientStake => 42,
        Error::AlreadyReviewed => 43,
        Error::CannotReviewOwnDoc => 44,
        Error::NotPendingReview => 45,
        Error::InvalidQualityScore => 46,
        Error::ReviewerSlashed => 47,
        Error::AlreadyHasAccess => 50,
        Error::NoEarnings => 51,
        Error::InvalidInput => 90,
    }
}

impl Error {
    /// The numeric code under which the error is reported on chain.
    pub fn code(&self) -> (c: u32)
        ensures
            c == error_code(*self),
    {
        match self {
            Error::AlreadyInitialized => 1,
            Error::NotInitialized => 2,
            Error::Unauthorized => 10,
            Error::ContractPaused => 11,
            Error::DocumentNotFound => 20,
            Error::InvalidAccessPrice => 21,
            Error::TitleTooLong => 22,
            Error::AbstractTooLong => 23,
            Error::InvalidIpfsHash => 24,
            Error::DocumentNotPublished => 25,
            Error::NotReadyToFinalize => 26,
            Error::NotPendingAiVerification => 30,
            Error::InvalidSimilarityScore => 31,
            Error::ReviewerAlreadyExists => 40,
            Error::ReviewerNotFound => 41,
            Error::InsufficientStake => 42,
            Error::AlreadyReviewed => 43,
            Error::CannotReviewOwnDoc => 44,
            Error::NotPendingReview => 45,
            Error::InvalidQualityScore => 46,
            Error::ReviewerSlashed => 47,
            Error::AlreadyHasAccess => 50,
            Error::NoEarnings => 51,
            Error::InvalidInput => 90,
        }
    }
}

/// Kind of an academic document.
#[derive(Clone, Copy, Debug, PartialEq, Eq, Structural)]
pub enum DocType {
    Thesis,
    Dissertation,
    ResearchPaper,
    TechnicalReport,
}

/// Where a document stands in its lifecycle.
#[derive(Clone, Copy, Debug, PartialEq, Eq, Structural)]
pub enum DocStatus {
    PendingAiVerification,
    RejectedByAi,
    PendingReview,
    UnderReview,
    RejectedByReviewers,
    Published,
    Revoked,
}

/// A referee's vote.
#[derive(Clone, Copy, Debug, PartialEq, Eq, Structural)]
pub enum Decision {
    Approve,
    Reject,
}

/// An account on the ledger, identified by its string key.
#[derive(Debug)]
pub struct Address {
    pub key: String,
}

impl View for Address {
    type V = Seq<char>;

    open spec fn view(&self) -> Seq<char> {
        self.key@
    }
}

impl Clone for Address {
    fn clone(&self) -> (r: Self)
        ensures
            r == *self,
    {
        Address { key: self.key.clone() }
    }
}

impl PartialEq for Address {
    fn eq(&self, other: &Self) -> (r: bool) {
        self.key == other.key
    }
}

impl vstd::std_specs::cmp::PartialEqSpecImpl for Address {
    open spec fn obeys_eq_spec() -> bool {
        true
    }

    open spec fn eq_spec(&self, other: &Self) -> bool {
        self@ == other@
    }
}

impl MapKey for Address {
    fn same_key(&self, other: &Self) -> (r: bool) {
        self.key == other.key
    }

    fn copy_key(&self) -> (r: Self) {
        self.clone()
    }
}

/// An account paired with a document: the key of vote records and of
/// access grants.
#[derive(Debug)]
pub struct AccountDoc {
    pub account: Address,
    pub doc_id: u64,
}

impl View for AccountDoc {
    type V = (Seq<char>, u64);

    open spec fn view(&self) -> (Seq<char>, u64) {
        (self.account@, self.doc_id)
    }
}

impl MapKey for AccountDoc {
    fn same_key(&self, other: &Self) -> (r: bool) {
        self.doc_id == other.doc_id && self.account.key == other.account.key
    }

    fn copy_key(&self) -> (r: Self) {
        AccountDoc { account: self.account.clone(), doc_id: self.doc_id }
    }
}

/// Document metadata. The file itself lives on IPFS; only its CID is kept.
#[derive(Debug)]
pub struct Document {
    pub id: u64,
    pub author: Address,
    pub title: String,
    pub abstract_: String,
    /// IPFS CIDv1 of the encrypted file.
    pub ipfs_hash: String,
    pub doc_type: DocType,
    /// Price in stroops that a reader pays.
    pub access_price: i128,
    /// ISO 639-1 language code.
    pub language: String,
    pub institution: String,
    pub status: DocStatus,
    /// Ledger sequence at submission.
    pub submitted_at: u32,
    /// Ledger sequence at publication (0 while not published).
    pub published_at: u32,
    /// Plagiarism similarity 0–100, or 255 while unchecked.
    pub similarity_score: u32,
    /// IPFS hash of the AI analysis report.
    pub ai_report_hash: String,
    pub approve_votes: u32,
    pub reject_votes: u32,
    /// Cumulative price paid for access, in stroops.
    pub total_earned: i128,
    /// Number of accesses sold.
    pub access_count: u64,
}

/// A referee's profile.
#[derive(Debug)]
pub struct Reviewer {
    pub address: Address,
    /// Stake held by the platform, in stroops.
    pub stake: i128,
    /// Comma-separated expertise tags.
    pub expertise: String,
    pub review_count: u64,
    pub total_quality_given: u64,
    pub successful_approvals: u64,
    /// Reputation 0–100.
    pub reputation: u32,
    pub slashed: bool,
    pub registered_at: u32,
}

/// One referee's vote on one document.
#[derive(Debug)]
pub struct ReviewRecord {
    pub reviewer: Address,
    pub doc_id: u64,
    pub decision: Decision,
    pub comments: String,
    pub quality_score: u32,
    pub submitted_at: u32,
}

/// Platform settings fixed at initialization (treasury and stake can change later).
#[derive(Debug)]
pub struct Config {
    pub admin: Address,
    pub treasury: Address,
    /// The token contract in which prices, stakes and earnings are paid.
    pub xlm_sac: Address,
    pub min_stake: i128,
}

/// What happened, for off-chain indexers.
#[derive(Debug)]
pub enum Event {
    Initialized { admin: Address },
    DocumentSubmitted { doc_id: u64, author: Address, title: String },
    AiPassed { doc_id: u64, similarity_score: u32 },
    AiFailed { doc_id: u64, similarity_score: u32 },
    ReviewerRegistered { reviewer: Address, stake: i128 },
    Reviewed { doc_id: u64, reviewer: Address, approved: bool, quality_score: u32 },
    DocumentPublished { doc_id: u64, author: Address },
    DocumentRejected { doc_id: u64 },
    AccessPurchased { doc_id: u64, reader: Address, price: i128, expiry: u32 },
    Withdrawn { beneficiary: Address, amount: i128 },
    DocumentRevoked { doc_id: u64 },
    ReviewerSlashed { reviewer: Address, reason: String },
    Paused,
    Unpaused,
}

/// Work that an accepted operation leaves to the host, in order.
#[derive(Debug)]
pub enum Effect {
    /// Move `amount` of `token` from `from` into the platform's own account.
    Collect { token: Address, from: Address, amount: i128 },
    /// Move `amount` of `token` from the platform's own account to `to`.
    Pay { token: Address, to: Address, amount: i128 },
    /// Publish an event.
    Publish(Event),
}

} // verus!
