//! The marketplace's state and the operations on it.
//!
//! Each operation checks its inputs against the state, and either refuses
//! with an [`Error`] and leaves the state as it was, or updates the state and
//! appends to an outbox the effects (token movements, events) that the host
//! must carry out. Ledger sequence numbers and signatures come from the host:
//! the sequence is an argument, and the host checks each signature that the
//! operation's documentation names before it calls the operation.
use vstd::prelude::*;
use crate::assoc::{entries_map, keys_distinct, lemma_entries_value, AssocMap, MapKey};
use crate::rules::{
    author_share, char_len, lemma_consistent_profile_fits, meets_publication_quorum,
    platform_share, profile_counts_valid, publication_quorum_met, recompute_reputation,
    reviewer_pool, royalty_split, sat_add, saturating_add, total_votes, verdict_due,
    with_reputation,
};
use crate::types::{
    AccountDoc, Address, Config, Decision, DocStatus, DocType, Document, Effect, Error, Event,
    ReviewRecord, Reviewer, ACCESS_TTL_LEDGERS, DEFAULT_MIN_STAKE, MAX_ABSTRACT_CHARS,
    MAX_COMMENT_CHARS, MAX_SIMILARITY, MAX_TITLE_CHARS, MIN_ACCESS_PRICE, MIN_APPROVALS,
    MIN_IPFS_HASH_CHARS,
    REVIEW_PANEL_SIZE, SIMILARITY_UNCHECKED, STARTING_REPUTATION,
};

verus! {

/// The marketplace as seen by contracts.
pub struct ChainView {
    /// Settings; `None` until the platform is initialized.
    pub config: Option<Config>,
    pub paused: bool,
    /// The number of documents numbered so far; the next one gets `doc_count + 1`.
    pub doc_count: u64,
    /// How many documents were stored when the platform was initialized.
    /// Numbering starts again from 1 then, so ids up to this number are
    /// given a second time and their documents replaced.
    pub pre_init_documents: u64,
    /// Stored documents: the one with id `i` sits at index `i - 1`.
    pub documents: Seq<Document>,
    /// For each stored document, the referees who voted on it, in order.
    pub doc_reviewers: Seq<Seq<Address>>,
    /// Referee profiles by account.
    pub reviewers: Map<Seq<char>, Reviewer>,
    /// Vote records by (referee, document).
    pub review_records: Map<(Seq<char>, u64), ReviewRecord>,
    /// Ledger at which a reader's access to a document ends.
    pub access_expiry: Map<(Seq<char>, u64), u32>,
    /// Earnings waiting to be withdrawn, by account.
    pub earnings: Map<Seq<char>, i128>,
    /// Effects not yet handed to the host.
    pub effects: Seq<Effect>,
}

/// A document as first stored by `submit_document`.
pub open spec fn is_new_document(
    d: Document,
    id: u64,
    author: Address,
    title: String,
    abstract_: String,
    ipfs_hash: String,
    doc_type: u32,
    access_price: i128,
    language: String,
    institution: String,
    ledger: u32,
) -> bool {
    &&& d.id == id
    &&& d.author == author
    &&& d.title == title
    &&& d.abstract_ == abstract_
    &&& d.ipfs_hash == ipfs_hash
    &&& d.doc_type == doc_type_of(doc_type)
    &&& d.access_price == access_price
    &&& d.language == language
    &&& d.institution == institution
    &&& d.status == DocStatus::PendingAiVerification
    &&& d.submitted_at == ledger
    &&& d.published_at == 0
    &&& d.similarity_score == SIMILARITY_UNCHECKED
    &&& d.ai_report_hash@ == Seq::<char>::empty()
    &&& d.approve_votes == 0
    &&& d.reject_votes == 0
    &&& d.total_earned == 0
    &&& d.access_count == 0
}

pub open spec fn doc_type_of(val: u32) -> DocType {
    if val == 0 {
        DocType::Thesis
    } else if val == 1 {
        DocType::Dissertation
    } else if val == 2 {
        DocType::ResearchPaper
    } else {
        DocType::TechnicalReport
    }
}

/// Each vote on document `d` came from a distinct account among `voters`,
/// other than the author, whose vote record is kept in `records`.
pub open spec fn voters_recorded(
    d: Document,
    voters: Seq<Address>,
    records: Map<(Seq<char>, u64), ReviewRecord>,
) -> bool {
    &&& total_votes(d) == voters.len()
    &&& forall|j: int|
        0 <= j < voters.len() ==> records.contains_key(((#[trigger] voters[j])@, d.id))
    &&& forall|j: int, k: int|
        0 <= j < k < voters.len() ==> (#[trigger] voters[j])@ != (#[trigger] voters[k])@
    &&& forall|j: int| 0 <= j < voters.len() ==> (#[trigger] voters[j])@ != d.author@
}

/// `who` is the account of one of `voters`.
pub open spec fn is_listed(voters: Seq<Address>, who: Seq<char>) -> bool {
    exists|j: int| 0 <= j < voters.len() && (#[trigger] voters[j])@ == who
}

/// A vote record stored under `key` belongs to a stored document among the
/// first `n` and names the voter and document of its key.
pub open spec fn record_matches(r: ReviewRecord, key: (Seq<char>, u64), n: nat) -> bool {
    &&& 1 <= key.1 <= n
    &&& r.reviewer@ == key.0
    &&& r.doc_id == key.1
}

/// What a stored document always satisfies.
pub open spec fn document_valid(d: Document) -> bool {
    &&& d.access_price >= MIN_ACCESS_PRICE
    &&& total_votes(d) <= u32::MAX
    &&& d.status == DocStatus::Published ==> meets_publication_quorum(d)
    &&& d.status == DocStatus::RejectedByReviewers ==> total_votes(d) >= MIN_APPROVALS
        && !meets_publication_quorum(d)
}

/// A document after the AI check has been recorded.
pub open spec fn ai_checked(d: Document, passed: bool, score: u32, report: String) -> Document {
    Document {
        similarity_score: score,
        ai_report_hash: report,
        status: if passed && score <= MAX_SIMILARITY {
            DocStatus::PendingReview
        } else {
            DocStatus::RejectedByAi
        },
        ..d
    }
}

/// A document after one more vote.
pub open spec fn with_vote(d: Document, decision: Decision) -> Document {
    Document {
        approve_votes: if decision == Decision::Approve {
            (d.approve_votes + 1) as u32
        } else {
            d.approve_votes
        },
        reject_votes: if decision == Decision::Reject {
            (d.reject_votes + 1) as u32
        } else {
            d.reject_votes
        },
        status: DocStatus::UnderReview,
        ..d
    }
}

/// A document after the referees' verdict, taken at `ledger`.
pub open spec fn with_verdict(d: Document, ledger: u32) -> Document {
    if meets_publication_quorum(d) {
        Document { status: DocStatus::Published, published_at: ledger, ..d }
    } else {
        Document { status: DocStatus::RejectedByReviewers, ..d }
    }
}

/// The event announcing a verdict on document `d`.
pub open spec fn verdict_event(d: Document) -> Event {
    if meets_publication_quorum(d) {
        Event::DocumentPublished { doc_id: d.id, author: d.author }
    } else {
        Event::DocumentRejected { doc_id: d.id }
    }
}

/// Account keys of a list of accounts.
pub open spec fn account_keys(accounts: Seq<Address>) -> Seq<Seq<char>> {
    accounts.map_values(|a: Address| a@)
}

/// Balance of `who` in `m`, zero where `m` holds none.
pub open spec fn balance_in(m: Map<Seq<char>, i128>, who: Seq<char>) -> i128 {
    if m.contains_key(who) {
        m[who]
    } else {
        0
    }
}

/// `m` with `amount` added (saturating) to the balance of `who`.
pub open spec fn credited(m: Map<Seq<char>, i128>, who: Seq<char>, amount: i128) -> Map<
    Seq<char>,
    i128,
> {
    m.insert(who, sat_add(balance_in(m, who), amount))
}

/// `m` with `amount` credited to each of `who`, in order.
pub open spec fn credited_each(m: Map<Seq<char>, i128>, who: Seq<Seq<char>>, amount: i128) -> Map<
    Seq<char>,
    i128,
>
    decreases who.len(),
{
    if who.len() == 0 {
        m
    } else {
        credited(credited_each(m, who.drop_last(), amount), who.last(), amount)
    }
}

/// Earnings after a sale at `price`: 70% to the author, 20% to the treasury,
/// the rest split evenly among the document's referees with the rounding
/// remainder to the treasury, or all of it to the treasury when nobody
/// voted on the document.
pub open spec fn sale_credits(
    m: Map<Seq<char>, i128>,
    author: Seq<char>,
    treasury: Seq<char>,
    reviewers: Seq<Seq<char>>,
    price: i128,
) -> Map<Seq<char>, i128> {
    let m1 = credited(m, author, author_share(price as int) as i128);
    let m2 = credited(m1, treasury, platform_share(price as int) as i128);
    let pool = reviewer_pool(price as int);
    if reviewers.len() > 0 {
        let per = pool / (reviewers.len() as int);
        let m3 = credited_each(m2, reviewers, per as i128);
        let remainder = pool - per * reviewers.len();
        if remainder > 0 {
            credited(m3, treasury, remainder as i128)
        } else {
            m3
        }
    } else {
        credited(m2, treasury, pool as i128)
    }
}

impl ChainView {
    pub open spec fn initialized(self) -> bool {
        self.config is Some
    }

    pub open spec fn has_document(self, id: u64) -> bool {
        1 <= id && id <= self.documents.len()
    }

    pub open spec fn document(self, id: u64) -> Document {
        self.documents[id - 1]
    }

    pub open spec fn reviewers_of(self, id: u64) -> Seq<Address> {
        self.doc_reviewers[id - 1]
    }

    pub open spec fn balance(self, who: Seq<char>) -> i128 {
        balance_in(self.earnings, who)
    }

    pub open spec fn expiry(self, who: Seq<char>, id: u64) -> u32 {
        if self.access_expiry.contains_key((who, id)) {
            self.access_expiry[(who, id)]
        } else {
            0
        }
    }

    pub open spec fn min_stake(self) -> i128 {
        match self.config {
            Some(c) => c.min_stake,
            None => DEFAULT_MIN_STAKE,
        }
    }

    /// What every reachable state satisfies.
    pub open spec fn valid(self) -> bool {
        &&& self.doc_count <= self.documents.len()
        &&& self.doc_count < self.documents.len() ==> self.documents.len()
            == self.pre_init_documents
        &&& self.doc_reviewers.len() == self.documents.len()
        &&& forall|i: int|
            0 <= i < self.documents.len() ==> (#[trigger] self.documents[i]).id == i + 1
                && document_valid(self.documents[i])
        &&& forall|k: Seq<char>| #[trigger]
            self.reviewers.contains_key(k) ==> profile_counts_valid(self.reviewers[k])
        &&& forall|k: Seq<char>| #[trigger] self.earnings.contains_key(k) ==> self.earnings[k] >= 0
        &&& forall|i: int|
            0 <= i < self.documents.len() ==> #[trigger] voters_recorded(
                self.documents[i],
                self.doc_reviewers[i],
                self.review_records,
            )
        &&& forall|k: (Seq<char>, u64)| #[trigger]
            self.review_records.contains_key(k) ==> record_matches(
                self.review_records[k],
                k,
                self.documents.len(),
            )
        &&& forall|k: (Seq<char>, u64)| #[trigger]
            self.review_records.contains_key(k) && k.1 > self.pre_init_documents ==> is_listed(
                self.doc_reviewers[k.1 - 1],
                k.0,
            )
        &&& self.config is None ==> {
            &&& !self.paused
            &&& forall|k: (Seq<char>, u64)| !#[trigger] self.review_records.contains_key(k)
            &&& forall|k: Seq<char>| !#[trigger] self.earnings.contains_key(k)
            &&& forall|k: Seq<char>| !#[trigger] self.reviewers.contains_key(k)
            &&& forall|i: int|
                0 <= i < self.documents.len() ==> (#[trigger] self.documents[i]).status
                    == DocStatus::PendingAiVerification
        }
    }

    /// A freshly deployed platform: nothing configured, nothing stored.
    pub open spec fn is_fresh(self) -> bool {
        &&& self.config is None
        &&& !self.paused
        &&& self.doc_count == 0
        &&& self.pre_init_documents == 0
        &&& self.documents.len() == 0
        &&& self.doc_reviewers.len() == 0
        &&& self.reviewers == Map::<Seq<char>, Reviewer>::empty()
        &&& self.review_records == Map::<(Seq<char>, u64), ReviewRecord>::empty()
        &&& self.access_expiry == Map::<(Seq<char>, u64), u32>::empty()
        &&& self.earnings == Map::<Seq<char>, i128>::empty()
        &&& self.effects.len() == 0
    }

    pub open spec fn admin_error(self) -> Option<Error> {
        if self.config is None {
            Some(Error::NotInitialized)
        } else {
            None
        }
    }

    pub open spec fn initialize_error(self) -> Option<Error> {
        if self.config is Some {
            Some(Error::AlreadyInitialized)
        } else {
            None
        }
    }

    pub open spec fn submit_error(
        self,
        title: Seq<char>,
        abstract_: Seq<char>,
        ipfs_hash: Seq<char>,
        access_price: i128,
    ) -> Option<Error> {
        if self.paused {
            Some(Error::ContractPaused)
        } else if title.len() > MAX_TITLE_CHARS {
            Some(Error::TitleTooLong)
        } else if abstract_.len() > MAX_ABSTRACT_CHARS {
            Some(Error::AbstractTooLong)
        } else if ipfs_hash.len() < MIN_IPFS_HASH_CHARS {
            Some(Error::InvalidIpfsHash)
        } else if access_price < MIN_ACCESS_PRICE {
            Some(Error::InvalidAccessPrice)
        } else {
            None
        }
    }

    pub open spec fn document_error(self, id: u64) -> Option<Error> {
        if !self.has_document(id) {
            Some(Error::DocumentNotFound)
        } else {
            None
        }
    }

    pub open spec fn revoke_error(self, id: u64) -> Option<Error> {
        if self.config is None {
            Some(Error::NotInitialized)
        } else if !self.has_document(id) {
            Some(Error::DocumentNotFound)
        } else if self.document(id).status != DocStatus::Published {
            Some(Error::DocumentNotPublished)
        } else {
            None
        }
    }
}

/// The marketplace: settings, documents, referees, votes, access grants,
/// pending earnings, and the outbox of effects for the host.
pub struct AcadChain {
    config: Option<Config>,
    paused: bool,
    doc_count: u64,
    pre_init_documents: u64,
    docs: Vec<Document>,
    doc_reviewers: Vec<Vec<Address>>,
    reviewers: AssocMap<Address, Reviewer>,
    review_records: AssocMap<AccountDoc, ReviewRecord>,
    access_expiry: AssocMap<AccountDoc, u32>,
    earnings: AssocMap<Address, i128>,
    effects: Vec<Effect>,
}

impl View for AcadChain {
    type V = ChainView;

    closed spec fn view(&self) -> ChainView {
        ChainView {
            config: self.config,
            paused: self.paused,
            doc_count: self.doc_count,
            pre_init_documents: self.pre_init_documents,
            documents: self.docs@,
            doc_reviewers: self.doc_reviewers@.map_values(|v: Vec<Address>| v@),
            reviewers: self.reviewers@,
            review_records: self.review_records@,
            access_expiry: self.access_expiry@,
            earnings: self.earnings@,
            effects: self.effects@,
        }
    }
}

impl AcadChain {
    /// Internal consistency, including the model invariant `valid`.
    pub closed spec fn wf(&self) -> bool {
        &&& self.reviewers.wf()
        &&& self.review_records.wf()
        &&& self.access_expiry.wf()
        &&& self.earnings.wf()
        &&& self.docs@.len() == self.doc_reviewers@.len()
        &&& self@.valid()
    }

    /// Every state that the operations produce satisfies the model invariant.
    pub proof fn lemma_valid(&self)
        requires
            self.wf(),
        ensures
            self@.valid(),
    {
    }

    /// A platform with nothing configured and nothing stored.
    pub fn new() -> (c: Self)
        ensures
            c.wf(),
            c@.is_fresh(),
    {
        let c = AcadChain {
            config: None,
            paused: false,
            doc_count: 0,
            pre_init_documents: 0,
            docs: Vec::new(),
            doc_reviewers: Vec::new(),
            reviewers: AssocMap::new(),
            review_records: AssocMap::new(),
            access_expiry: AssocMap::new(),
            earnings: AssocMap::new(),
            effects: Vec::new(),
        };
        assert(c@.doc_reviewers =~= Seq::<Seq<Address>>::empty());
        c
    }

    /// Hands the pending effects to the host and empties the outbox.
    pub fn take_effects(&mut self) -> (r: Vec<Effect>)
        requires
            old(self).wf(),
        ensures
            final(self).wf(),
            keeps_history(old(self)@, final(self)@),
            r@ == old(self)@.effects,
            final(self)@ == (ChainView { effects: Seq::empty(), ..old(self)@ }),
    {
        let mut out: Vec<Effect> = Vec::new();
        std::mem::swap(&mut out, &mut self.effects);
        assert(self@.effects =~= Seq::<Effect>::empty());
        out
    }

    /// Maps a numeric document kind to [`DocType`]; unknown numbers mean a
    /// technical report.
    pub fn u32_to_doc_type(val: u32) -> (t: DocType)
        ensures
            t == doc_type_of(val),
    {
        match val {
            0 => DocType::Thesis,
            1 => DocType::Dissertation,
            2 => DocType::ResearchPaper,
            _ => DocType::TechnicalReport,
        }
    }

    fn doc_index(&self, doc_id: u64) -> (r: Option<usize>)
        requires
            self.wf(),
        ensures
            match r {
                Some(i) => self@.has_document(doc_id) && i == doc_id - 1,
                None => !self@.has_document(doc_id),
            },
    {
        if doc_id >= 1 && doc_id - 1 < self.docs.len() as u64 {
            Some((doc_id - 1) as usize)
        } else {
            None
        }
    }

    fn require_admin(&self) -> (r: Result<(), Error>)
        ensures
            r is Ok <==> self@.admin_error() is None,
            r matches Err(e) ==> self@.admin_error() == Some(e),
    {
        if self.config.is_none() {
            Err(Error::NotInitialized)
        } else {
            Ok(())
        }
    }

    fn require_not_paused(&self) -> (r: Result<(), Error>)
        ensures
            r is Ok <==> !self@.paused,
            r matches Err(e) ==> e == Error::ContractPaused,
    {
        if self.paused {
            Err(Error::ContractPaused)
        } else {
            Ok(())
        }
    }

    /// Sets up the platform. Refused once it has been set up.
    pub fn initialize(&mut self, admin: Address, treasury: Address, xlm_sac: Address, min_stake: i128) -> (r: Result<(), Error>)
        requires
            old(self).wf(),
        ensures
            final(self).wf(),
            keeps_history(old(self)@, final(self)@),
            match r {
                Ok(()) => old(self)@.initialize_error() is None && final(self)@ == (ChainView {
                    config: Some(Config { admin, treasury, xlm_sac, min_stake }),
                    paused: false,
                    doc_count: 0,
                    pre_init_documents: old(self)@.documents.len() as u64,
                    effects: old(self)@.effects.push(Effect::Publish(Event::Initialized { admin })),
                    ..old(self)@
                }),
                Err(e) => old(self)@.initialize_error() == Some(e) && final(self)@ == old(self)@,
            },
    {
        if self.config.is_some() {
            return Err(Error::AlreadyInitialized);
        }
        let event_admin = admin.clone();
        self.config = Some(Config { admin, treasury, xlm_sac, min_stake });
        self.paused = false;
        self.doc_count = 0;
        self.pre_init_documents = self.docs.len() as u64;
        self.effects.push(Effect::Publish(Event::Initialized { admin: event_admin }));
        Ok(())
    }

    /// Changes the treasury account. Admin only.
    pub fn set_treasury(&mut self, new_treasury: Address) -> (r: Result<(), Error>)
        requires
            old(self).wf(),
        ensures
            final(self).wf(),
            keeps_history(old(self)@, final(self)@),
            match r {
                Ok(()) => old(self)@.admin_error() is None && final(self)@ == (ChainView {
                    config: Some(Config { treasury: new_treasury, ..old(self)@.config.unwrap() }),
                    ..old(self)@
                }),
                Err(e) => old(self)@.admin_error() == Some(e) && final(self)@ == old(self)@,
            },
    {
        match self.config.take() {
            None => Err(Error::NotInitialized),
            Some(c) => {
                self.config = Some(Config { treasury: new_treasury, ..c });
                Ok(())
            },
        }
    }

    /// Changes the minimum referee stake. Admin only.
    pub fn set_min_stake(&mut self, new_min_stake: i128) -> (r: Result<(), Error>)
        requires
            old(self).wf(),
        ensures
            final(self).wf(),
            keeps_history(old(self)@, final(self)@),
            match r {
                Ok(()) => old(self)@.admin_error() is None && final(self)@ == (ChainView {
                    config: Some(Config { min_stake: new_min_stake, ..old(self)@.config.unwrap() }),
                    ..old(self)@
                }),
                Err(e) => old(self)@.admin_error() == Some(e) && final(self)@ == old(self)@,
            },
    {
        match self.config.take() {
            None => Err(Error::NotInitialized),
            Some(c) => {
                self.config = Some(Config { min_stake: new_min_stake, ..c });
                Ok(())
            },
        }
    }

    /// Stops submissions, registrations, votes and purchases. Admin only.
    pub fn pause(&mut self) -> (r: Result<(), Error>)
        requires
            old(self).wf(),
        ensures
            final(self).wf(),
            keeps_history(old(self)@, final(self)@),
            match r {
                Ok(()) => old(self)@.admin_error() is None && final(self)@ == (ChainView {
                    paused: true,
                    effects: old(self)@.effects.push(Effect::Publish(Event::Paused)),
                    ..old(self)@
                }),
                Err(e) => old(self)@.admin_error() == Some(e) && final(self)@ == old(self)@,
            },
    {
        self.require_admin()?;
        self.paused = true;
        self.effects.push(Effect::Publish(Event::Paused));
        Ok(())
    }

    /// Resumes operations after a pause. Admin only.
    pub fn unpause(&mut self) -> (r: Result<(), Error>)
        requires
            old(self).wf(),
        ensures
            final(self).wf(),
            keeps_history(old(self)@, final(self)@),
            match r {
                Ok(()) => old(self)@.admin_error() is None && final(self)@ == (ChainView {
                    paused: false,
                    effects: old(self)@.effects.push(Effect::Publish(Event::Unpaused)),
                    ..old(self)@
                }),
                Err(e) => old(self)@.admin_error() == Some(e) && final(self)@ == old(self)@,
            },
    {
        self.require_admin()?;
        self.paused = false;
        self.effects.push(Effect::Publish(Event::Unpaused));
        Ok(())
    }

    /// Whether the platform is paused.
    pub fn is_paused(&self) -> (r: bool)
        ensures
            r == self@.paused,
    {
        self.paused
    }

    /// The admin account, once the platform is initialized.
    pub fn admin(&self) -> (r: Option<&Address>)
        ensures
            match r {
                Some(a) => self@.config is Some && *a == self@.config.unwrap().admin,
                None => self@.config is None,
            },
    {
        match &self.config {
            Some(c) => Some(&c.admin),
            None => None,
        }
    }

    /// The stored document `doc_id`.
    pub fn get_document(&self, doc_id: u64) -> (r: Result<&Document, Error>)
        requires
            self.wf(),
        ensures
            match r {
                Ok(d) => self@.has_document(doc_id) && *d == self@.document(doc_id),
                Err(e) => self@.document_error(doc_id) == Some(e),
            },
    {
        match self.doc_index(doc_id) {
            Some(i) => Ok(&self.docs[i]),
            None => Err(Error::DocumentNotFound),
        }
    }

    /// The lifecycle status of document `doc_id`.
    pub fn get_document_status(&self, doc_id: u64) -> (r: Result<DocStatus, Error>)
        requires
            self.wf(),
        ensures
            match r {
                Ok(s) => self@.has_document(doc_id) && s == self@.document(doc_id).status,
                Err(e) => self@.document_error(doc_id) == Some(e),
            },
    {
        match self.doc_index(doc_id) {
            Some(i) => Ok(self.docs[i].status),
            None => Err(Error::DocumentNotFound),
        }
    }

    /// The number of documents numbered so far.
    pub fn get_document_count(&self) -> (n: u64)
        ensures
            n == self@.doc_count,
    {
        self.doc_count
    }

    /// Whether `reader`'s access to `doc_id` is still running at `ledger`.
    pub fn has_access(&self, reader: &Address, doc_id: u64, ledger: u32) -> (r: bool)
        requires
            self.wf(),
        ensures
            r == (self@.expiry(reader@, doc_id) > ledger),
    {
        let key = AccountDoc { account: reader.clone(), doc_id };
        let expiry: u32 = match self.access_expiry.get(&key) {
            Some(e) => *e,
            None => 0,
        };
        expiry > ledger
    }

    /// Earnings of `address` waiting to be withdrawn.
    pub fn get_earnings(&self, address: &Address) -> (r: i128)
        requires
            self.wf(),
        ensures
            r == self@.balance(address@),
    {
        match self.earnings.get(address) {
            Some(b) => *b,
            None => 0,
        }
    }

    /// The profile registered for an account.
    pub fn get_reviewer(&self, reviewer: &Address) -> (r: Result<&Reviewer, Error>)
        requires
            self.wf(),
        ensures
            match r {
                Ok(p) => self@.reviewers.contains_key(reviewer@) && *p == self@.reviewers[reviewer@],
                Err(e) => !self@.reviewers.contains_key(reviewer@) && e == Error::ReviewerNotFound,
            },
    {
        match self.reviewers.get(reviewer) {
            Some(p) => Ok(p),
            None => Err(Error::ReviewerNotFound),
        }
    }

    /// The vote that an account cast on `doc_id`.
    pub fn get_review_record(&self, reviewer: &Address, doc_id: u64) -> (r: Result<&ReviewRecord, Error>)
        requires
            self.wf(),
        ensures
            match r {
                Ok(rec) => self@.review_records.contains_key((reviewer@, doc_id))
                    && *rec == self@.review_records[(reviewer@, doc_id)],
                Err(e) => !self@.review_records.contains_key((reviewer@, doc_id))
                    && e == Error::ReviewerNotFound,
            },
    {
        let key = AccountDoc { account: reviewer.clone(), doc_id };
        match self.review_records.get(&key) {
            Some(rec) => Ok(rec),
            None => Err(Error::ReviewerNotFound),
        }
    }
}


/// `s` with `x` stored at index `i`: in place of the element there, or
/// appended when `i` is just past the end.
pub open spec fn put<T>(s: Seq<T>, i: int, x: T) -> Seq<T> {
    if i < s.len() {
        s.update(i, x)
    } else {
        s.push(x)
    }
}

impl ChainView {
    pub open spec fn ai_error(self, id: u64, similarity_score: u32) -> Option<Error> {
        if self.config is None {
            Some(Error::NotInitialized)
        } else if similarity_score > 100 {
            Some(Error::InvalidSimilarityScore)
        } else if !self.has_document(id) {
            Some(Error::DocumentNotFound)
        } else if self.document(id).status != DocStatus::PendingAiVerification {
            Some(Error::NotPendingAiVerification)
        } else {
            None
        }
    }

    pub open spec fn register_error(self, who: Seq<char>, stake_amount: i128) -> Option<Error> {
        if self.paused {
            Some(Error::ContractPaused)
        } else if self.reviewers.contains_key(who) {
            Some(Error::ReviewerAlreadyExists)
        } else if stake_amount < self.min_stake() {
            Some(Error::InsufficientStake)
        } else if self.config is None {
            Some(Error::NotInitialized)
        } else {
            None
        }
    }

    pub open spec fn review_error(
        self,
        who: Seq<char>,
        id: u64,
        quality_score: u32,
        comments: Seq<char>,
    ) -> Option<Error> {
        if self.paused {
            Some(Error::ContractPaused)
        } else if !self.reviewers.contains_key(who) {
            Some(Error::ReviewerNotFound)
        } else if self.reviewers[who].slashed {
            Some(Error::ReviewerSlashed)
        } else if quality_score < 1 || quality_score > 10 {
            Some(Error::InvalidQualityScore)
        } else if comments.len() > MAX_COMMENT_CHARS {
            Some(Error::InvalidInput)
        } else if !self.has_document(id) {
            Some(Error::DocumentNotFound)
        } else if self.document(id).author@ == who {
            Some(Error::CannotReviewOwnDoc)
        } else if self.document(id).status != DocStatus::PendingReview && self.document(id).status
            != DocStatus::UnderReview {
            Some(Error::NotPendingReview)
        } else if self.review_records.contains_key((who, id)) {
            Some(Error::AlreadyReviewed)
        } else {
            None
        }
    }

    /// The counters that an accepted vote increments still have room.
    pub open spec fn review_fits(self, who: Seq<char>, id: u64, quality_score: u32) -> bool {
        &&& total_votes(self.document(id)) < u32::MAX
        &&& self.reviewers[who].review_count < u64::MAX
        &&& self.reviewers[who].total_quality_given + quality_score <= u64::MAX
    }

    pub open spec fn finalize_error(self, id: u64) -> Option<Error> {
        if !self.has_document(id) {
            Some(Error::DocumentNotFound)
        } else if self.document(id).status != DocStatus::UnderReview {
            Some(Error::NotReadyToFinalize)
        } else if total_votes(self.document(id)) < MIN_APPROVALS {
            Some(Error::NotReadyToFinalize)
        } else {
            None
        }
    }

    pub open spec fn purchase_error(self, who: Seq<char>, id: u64, ledger: u32) -> Option<Error> {
        if self.paused {
            Some(Error::ContractPaused)
        } else if !self.has_document(id) {
            Some(Error::DocumentNotFound)
        } else if self.document(id).status != DocStatus::Published {
            Some(Error::DocumentNotPublished)
        } else if self.expiry(who, id) > ledger {
            Some(Error::AlreadyHasAccess)
        } else {
            None
        }
    }

    pub open spec fn withdraw_error(self, who: Seq<char>) -> Option<Error> {
        if self.balance(who) <= 0 {
            Some(Error::NoEarnings)
        } else {
            None
        }
    }

    pub open spec fn slash_error(self, who: Seq<char>) -> Option<Error> {
        if self.config is None {
            Some(Error::NotInitialized)
        } else if !self.reviewers.contains_key(who) {
            Some(Error::ReviewerNotFound)
        } else {
            None
        }
    }

    /// Earnings after slashing `who`: a positive forfeited stake is credited
    /// to the treasury.
    pub open spec fn earnings_after_slash(self, who: Seq<char>) -> Map<Seq<char>, i128> {
        let stake = self.reviewers[who].stake;
        if stake > 0 {
            credited(self.earnings, self.config.unwrap().treasury@, stake)
        } else {
            self.earnings
        }
    }

    /// Earnings after a sale of document `id` at its price.
    pub open spec fn earnings_after_sale(self, id: u64) -> Map<Seq<char>, i128> {
        sale_credits(
            self.earnings,
            self.document(id).author@,
            self.config.unwrap().treasury@,
            account_keys(self.reviewers_of(id)),
            self.document(id).access_price,
        )
    }
}

/// A profile after one more vote of quality `quality_score`.
pub open spec fn after_review(r: Reviewer, quality_score: u32) -> Reviewer {
    with_reputation(
        Reviewer {
            review_count: (r.review_count + 1) as u64,
            total_quality_given: (r.total_quality_given + quality_score) as u64,
            ..r
        },
    )
}

/// A document after the vote: counted, and judged when the verdict is due.
pub open spec fn after_vote(d: Document, decision: Decision, ledger: u32) -> Document {
    if verdict_due(with_vote(d, decision)) {
        with_verdict(with_vote(d, decision), ledger)
    } else {
        with_vote(d, decision)
    }
}

/// The events that a vote publishes.
pub open spec fn vote_events(
    d: Document,
    reviewer: Address,
    decision: Decision,
    quality_score: u32,
) -> Seq<Effect> {
    let reviewed = Effect::Publish(
        Event::Reviewed {
            doc_id: d.id,
            reviewer,
            approved: decision == Decision::Approve,
            quality_score,
        },
    );
    if verdict_due(with_vote(d, decision)) {
        seq![reviewed, Effect::Publish(verdict_event(with_vote(d, decision)))]
    } else {
        seq![reviewed]
    }
}

impl AcadChain {
    /// Submits a new document for AI verification and vetting; returns its id
    /// (ids count up from 1). The author signs.
    pub fn submit_document(
        &mut self,
        author: Address,
        title: String,
        abstract_: String,
        ipfs_hash: String,
        doc_type: u32,
        access_price: i128,
        language: String,
        institution: String,
        ledger: u32,
    ) -> (r: Result<u64, Error>)
        requires
            old(self).wf(),
            old(self)@.submit_error(title@, abstract_@, ipfs_hash@, access_price) is None
                ==> old(self)@.doc_count < u64::MAX,
        ensures
            final(self).wf(),
            keeps_history(old(self)@, final(self)@),
            match r {
                Ok(id) => {
                    let i = old(self)@.doc_count as int;
                    &&& old(self)@.submit_error(title@, abstract_@, ipfs_hash@, access_price) is None
                    &&& id == old(self)@.doc_count + 1
                    &&& is_new_document(
                        final(self)@.documents[i],
                        id,
                        author,
                        title,
                        abstract_,
                        ipfs_hash,
                        doc_type,
                        access_price,
                        language,
                        institution,
                        ledger,
                    )
                    &&& final(self)@ == (ChainView {
                        doc_count: id,
                        documents: put(old(self)@.documents, i, final(self)@.documents[i]),
                        doc_reviewers: put(old(self)@.doc_reviewers, i, Seq::<Address>::empty()),
                        effects: old(self)@.effects.push(
                            Effect::Publish(Event::DocumentSubmitted { doc_id: id, author, title }),
                        ),
                        ..old(self)@
                    })
                },
                Err(e) => old(self)@.submit_error(title@, abstract_@, ipfs_hash@, access_price)
                    == Some(e) && final(self)@ == old(self)@,
            },
    {
        self.require_not_paused()?;
        if char_len(&title) > MAX_TITLE_CHARS {
            return Err(Error::TitleTooLong);
        }
        if char_len(&abstract_) > MAX_ABSTRACT_CHARS {
            return Err(Error::AbstractTooLong);
        }
        if char_len(&ipfs_hash) < MIN_IPFS_HASH_CHARS {
            return Err(Error::InvalidIpfsHash);
        }
        if access_price < MIN_ACCESS_PRICE {
            return Err(Error::InvalidAccessPrice);
        }
        let doc_id = self.doc_count + 1;
        let event_author = author.clone();
        let event_title = title.clone();
        let doc = Document {
            id: doc_id,
            author,
            title,
            abstract_,
            ipfs_hash,
            doc_type: Self::u32_to_doc_type(doc_type),
            access_price,
            language,
            institution,
            status: DocStatus::PendingAiVerification,
            submitted_at: ledger,
            published_at: 0,
            similarity_score: SIMILARITY_UNCHECKED,
            ai_report_hash: String::new(),
            approve_votes: 0,
            reject_votes: 0,
            total_earned: 0,
            access_count: 0,
        };
        let ghost old_view = self@;
        let i = self.doc_count as usize;
        if i < self.docs.len() {
            self.docs.set(i, doc);
            self.doc_reviewers.set(i, Vec::new());
        } else {
            self.docs.push(doc);
            self.doc_reviewers.push(Vec::new());
        }
        self.doc_count = doc_id;
        self.effects.push(
            Effect::Publish(Event::DocumentSubmitted { doc_id, author: event_author, title: event_title }),
        );
        assert(self@.doc_reviewers =~= put(old_view.doc_reviewers, i as int, Seq::<Address>::empty()));
        assert(self@.documents =~= put(old_view.documents, i as int, self@.documents[i as int]));
        Ok(doc_id)
    }

    /// Records the AI check of a document awaiting it: it passes to vetting
    /// when the check passed with similarity at most 30%, and is rejected
    /// otherwise. Admin only.
    pub fn record_ai_verification(
        &mut self,
        doc_id: u64,
        passed: bool,
        similarity_score: u32,
        ai_report_hash: String,
    ) -> (r: Result<(), Error>)
        requires
            old(self).wf(),
        ensures
            final(self).wf(),
            keeps_history(old(self)@, final(self)@),
            match r {
                Ok(()) => old(self)@.ai_error(doc_id, similarity_score) is None && final(self)@
                    == (ChainView {
                    documents: old(self)@.documents.update(
                        doc_id - 1,
                        ai_checked(old(self)@.document(doc_id), passed, similarity_score, ai_report_hash),
                    ),
                    effects: old(self)@.effects.push(
                        Effect::Publish(
                            if passed && similarity_score <= MAX_SIMILARITY {
                                Event::AiPassed { doc_id, similarity_score }
                            } else {
                                Event::AiFailed { doc_id, similarity_score }
                            },
                        ),
                    ),
                    ..old(self)@
                }),
                Err(e) => old(self)@.ai_error(doc_id, similarity_score) == Some(e) && final(self)@
                    == old(self)@,
            },
    {
        self.require_admin()?;
        if similarity_score > 100 {
            return Err(Error::InvalidSimilarityScore);
        }
        let i = match self.doc_index(doc_id) {
            Some(i) => i,
            None => return Err(Error::DocumentNotFound),
        };
        if self.docs[i].status != DocStatus::PendingAiVerification {
            return Err(Error::NotPendingAiVerification);
        }
        let ghost old_view = self@;
        let pass = passed && similarity_score <= MAX_SIMILARITY;
        self.docs[i].similarity_score = similarity_score;
        self.docs[i].ai_report_hash = ai_report_hash;
        self.docs[i].status = if pass {
            DocStatus::PendingReview
        } else {
            DocStatus::RejectedByAi
        };
        let event = if pass {
            Event::AiPassed { doc_id, similarity_score }
        } else {
            Event::AiFailed { doc_id, similarity_score }
        };
        self.effects.push(Effect::Publish(event));
        assert(self@.documents =~= old_view.documents.update(
            doc_id - 1,
            ai_checked(old_view.document(doc_id), passed, similarity_score, ai_report_hash),
        ));
        proof {
            lemma_votes_kept(old_view, self@, i as int);
        }
        Ok(())
    }

    /// Registers a referee who stakes at least the minimum stake; the stake
    /// moves from the referee to the platform, so the platform must be
    /// initialized. The referee signs.
    pub fn register_reviewer(
        &mut self,
        reviewer: Address,
        stake_amount: i128,
        expertise: String,
        ledger: u32,
    ) -> (r: Result<(), Error>)
        requires
            old(self).wf(),
        ensures
            final(self).wf(),
            keeps_history(old(self)@, final(self)@),
            match r {
                Ok(()) => old(self)@.register_error(reviewer@, stake_amount) is None && final(self)@
                    == (ChainView {
                    reviewers: old(self)@.reviewers.insert(
                        reviewer@,
                        Reviewer {
                            address: reviewer,
                            stake: stake_amount,
                            expertise,
                            review_count: 0,
                            total_quality_given: 0,
                            successful_approvals: 0,
                            reputation: STARTING_REPUTATION,
                            slashed: false,
                            registered_at: ledger,
                        },
                    ),
                    effects: old(self)@.effects.push(
                        Effect::Collect {
                            token: old(self)@.config.unwrap().xlm_sac,
                            from: reviewer,
                            amount: stake_amount,
                        },
                    ).push(
                        Effect::Publish(Event::ReviewerRegistered { reviewer, stake: stake_amount }),
                    ),
                    ..old(self)@
                }),
                Err(e) => old(self)@.register_error(reviewer@, stake_amount) == Some(e)
                    && final(self)@ == old(self)@,
            },
    {
        self.require_not_paused()?;
        if self.reviewers.contains(&reviewer) {
            return Err(Error::ReviewerAlreadyExists);
        }
        let min_stake = match &self.config {
            Some(c) => c.min_stake,
            None => DEFAULT_MIN_STAKE,
        };
        if stake_amount < min_stake {
            return Err(Error::InsufficientStake);
        }
        let token = match &self.config {
            Some(c) => c.xlm_sac.clone(),
            None => return Err(Error::NotInitialized),
        };
        let key = reviewer.clone();
        let from = reviewer.clone();
        let event_reviewer = reviewer.clone();
        let profile = Reviewer {
            address: reviewer,
            stake: stake_amount,
            expertise,
            review_count: 0,
            total_quality_given: 0,
            successful_approvals: 0,
            reputation: STARTING_REPUTATION,
            slashed: false,
            registered_at: ledger,
        };
        self.reviewers.insert(key, profile);
        self.effects.push(Effect::Collect { token, from, amount: stake_amount });
        self.effects.push(
            Effect::Publish(Event::ReviewerRegistered { reviewer: event_reviewer, stake: stake_amount }),
        );
        Ok(())
    }
}



/// Every vote record of `old` is still in `new`, unchanged.
pub open spec fn keeps_records(old: ChainView, new: ChainView) -> bool {
    forall|k: (Seq<char>, u64)| #[trigger]
        old.review_records.contains_key(k) ==> new.review_records.contains_key(k)
            && new.review_records[k] == old.review_records[k]
}

/// A step that buys no access: vote records kept, access grants unchanged.
pub open spec fn keeps_history(old: ChainView, new: ChainView) -> bool {
    &&& keeps_records(old, new)
    &&& new.access_expiry == old.access_expiry
}

/// A step that buys access under `key`: vote records kept, every other
/// access grant unchanged, and the grant under `key` ending no earlier than
/// before.
pub open spec fn renews_grant(old: ChainView, new: ChainView, key: (Seq<char>, u64)) -> bool {
    &&& keeps_records(old, new)
    &&& new.access_expiry.remove(key) == old.access_expiry.remove(key)
    &&& new.expiry(key.0, key.1) >= old.expiry(key.0, key.1)
}

/// Replacing a document by one with the same id and vote count keeps every
/// document's votes accounted for.
proof fn lemma_votes_kept(old_v: ChainView, new_v: ChainView, i: int)
    requires
        forall|j: int|
            0 <= j < old_v.documents.len() ==> #[trigger] voters_recorded(
                old_v.documents[j],
                old_v.doc_reviewers[j],
                old_v.review_records,
            ),
        0 <= i < old_v.documents.len(),
        new_v.documents == old_v.documents.update(i, new_v.documents[i]),
        new_v.doc_reviewers == old_v.doc_reviewers,
        new_v.review_records == old_v.review_records,
        new_v.documents[i].id == old_v.documents[i].id,
        new_v.documents[i].author == old_v.documents[i].author,
        total_votes(new_v.documents[i]) == total_votes(old_v.documents[i]),
    ensures
        forall|j: int|
            0 <= j < new_v.documents.len() ==> #[trigger] voters_recorded(
                new_v.documents[j],
                new_v.doc_reviewers[j],
                new_v.review_records,
            ),
{
    assert forall|j: int| 0 <= j < new_v.documents.len() implies #[trigger] voters_recorded(
        new_v.documents[j],
        new_v.doc_reviewers[j],
        new_v.review_records,
    ) by {
        assert(voters_recorded(old_v.documents[j], old_v.doc_reviewers[j], old_v.review_records));
    }
}

/// Counting one more vote from a new account, recorded under `(who, id)`,
/// keeps every document's votes accounted for.
proof fn lemma_vote_counted(
    old_v: ChainView,
    new_v: ChainView,
    i: int,
    who: Address,
    rec: ReviewRecord,
)
    requires
        forall|j: int|
            0 <= j < old_v.documents.len() ==> #[trigger] voters_recorded(
                old_v.documents[j],
                old_v.doc_reviewers[j],
                old_v.review_records,
            ),
        0 <= i < old_v.documents.len(),
        old_v.documents.len() == old_v.doc_reviewers.len(),
        !old_v.review_records.contains_key((who@, old_v.documents[i].id)),
        who@ != old_v.documents[i].author@,
        new_v.documents == old_v.documents.update(i, new_v.documents[i]),
        new_v.doc_reviewers == old_v.doc_reviewers.update(i, old_v.doc_reviewers[i].push(who)),
        new_v.review_records == old_v.review_records.insert((who@, old_v.documents[i].id), rec),
        new_v.documents[i].id == old_v.documents[i].id,
        new_v.documents[i].author == old_v.documents[i].author,
        total_votes(new_v.documents[i]) == total_votes(old_v.documents[i]) + 1,
    ensures
        forall|j: int|
            0 <= j < new_v.documents.len() ==> #[trigger] voters_recorded(
                new_v.documents[j],
                new_v.doc_reviewers[j],
                new_v.review_records,
            ),
{
    assert forall|j: int| 0 <= j < new_v.documents.len() implies #[trigger] voters_recorded(
        new_v.documents[j],
        new_v.doc_reviewers[j],
        new_v.review_records,
    ) by {
        assert(voters_recorded(old_v.documents[j], old_v.doc_reviewers[j], old_v.review_records));
        let voters = new_v.doc_reviewers[j];
        let d = new_v.documents[j];
        if j == i {
            let prev = old_v.doc_reviewers[i];
            assert forall|a: int| 0 <= a < voters.len() implies new_v.review_records.contains_key(
                ((#[trigger] voters[a])@, d.id),
            ) by {
                if a < prev.len() {
                    assert(voters[a] == prev[a]);
                    assert(old_v.review_records.contains_key((prev[a]@, d.id)));
                }
            }
            assert forall|a: int, b: int| 0 <= a < b < voters.len() implies (#[trigger] voters[a])@
                != (#[trigger] voters[b])@ by {
                assert(voters[a] == prev[a]);
                if b < prev.len() {
                    assert(voters[b] == prev[b]);
                } else {
                    assert(old_v.review_records.contains_key((prev[a]@, d.id)));
                }
            }
        } else {
            let prev = old_v.doc_reviewers[j];
            assert(voters == prev);
            assert forall|a: int| 0 <= a < voters.len() implies new_v.review_records.contains_key(
                ((#[trigger] voters[a])@, d.id),
            ) by {
                assert(old_v.review_records.contains_key((prev[a]@, d.id)));
            }
        }
    }
}

/// Recording one more vote on the document at index `i` and listing its
/// voter keeps every record of a document numbered after setup listed.
proof fn lemma_vote_listed(
    old_v: ChainView,
    new_v: ChainView,
    i: int,
    id: u64,
    who: Address,
    rec: ReviewRecord,
)
    requires
        forall|k: (Seq<char>, u64)| #[trigger]
            old_v.review_records.contains_key(k) && k.1 > old_v.pre_init_documents ==> is_listed(
                old_v.doc_reviewers[k.1 - 1],
                k.0,
            ),
        forall|k: (Seq<char>, u64)| #[trigger]
            old_v.review_records.contains_key(k) ==> record_matches(
                old_v.review_records[k],
                k,
                old_v.documents.len(),
            ),
        0 <= i < old_v.documents.len(),
        id == i + 1,
        old_v.documents.len() == old_v.doc_reviewers.len(),
        new_v.pre_init_documents == old_v.pre_init_documents,
        new_v.doc_reviewers == old_v.doc_reviewers.update(i, old_v.doc_reviewers[i].push(who)),
        new_v.review_records == old_v.review_records.insert((who@, id), rec),
    ensures
        forall|k: (Seq<char>, u64)| #[trigger]
            new_v.review_records.contains_key(k) && k.1 > new_v.pre_init_documents ==> is_listed(
                new_v.doc_reviewers[k.1 - 1],
                k.0,
            ),
{
    assert forall|k: (Seq<char>, u64)| #[trigger]
        new_v.review_records.contains_key(k) && k.1 > new_v.pre_init_documents implies is_listed(
        new_v.doc_reviewers[k.1 - 1],
        k.0,
    ) by {
        let voters = new_v.doc_reviewers[k.1 - 1];
        if k == (who@, id) {
            let last = old_v.doc_reviewers[i].len() as int;
            assert(voters[last]@ == who@);
        } else {
            assert(record_matches(old_v.review_records[k], k, old_v.documents.len()));
            assert(is_listed(old_v.doc_reviewers[k.1 - 1], k.0));
            let prev = old_v.doc_reviewers[k.1 - 1];
            let j = choose|j: int| 0 <= j < prev.len() && (#[trigger] prev[j])@ == k.0;
            assert(voters[j] == prev[j]);
        }
    }
}

impl AcadChain {
    /// Takes the referees' verdict on the document at index `i`.
    fn do_finalize(&mut self, i: usize, ledger: u32)
        requires
            old(self).wf(),
            i < old(self)@.documents.len(),
            old(self)@.documents[i as int].status == DocStatus::UnderReview,
            total_votes(old(self)@.documents[i as int]) >= MIN_APPROVALS,
        ensures
            final(self).wf(),
            keeps_history(old(self)@, final(self)@),
            final(self)@ == (ChainView {
                documents: old(self)@.documents.update(i as int, with_verdict(old(self)@.documents[i as int], ledger)),
                effects: old(self)@.effects.push(Effect::Publish(verdict_event(old(self)@.documents[i as int]))),
                ..old(self)@
            }),
    {
        let ghost old_view = self@;
        let publish = publication_quorum_met(self.docs[i].approve_votes, self.docs[i].reject_votes);
        let doc_id = self.docs[i].id;
        if publish {
            self.docs[i].status = DocStatus::Published;
            self.docs[i].published_at = ledger;
            let author = self.docs[i].author.clone();
            self.effects.push(Effect::Publish(Event::DocumentPublished { doc_id, author }));
        } else {
            self.docs[i].status = DocStatus::RejectedByReviewers;
            self.effects.push(Effect::Publish(Event::DocumentRejected { doc_id }));
        }
        assert(self@.documents =~= old_view.documents.update(
            i as int,
            with_verdict(old_view.documents[i as int], ledger),
        ));
        proof {
            lemma_votes_kept(old_view, self@, i as int);
        }
    }

    /// Casts a referee's vote on a document under vetting. A referee votes
    /// at most once per document, never on their own, and not once slashed;
    /// comments hold at most 2048 characters. The verdict is taken as soon as the publication quorum is met, and in
    /// any case once three referees have voted. The referee signs.
    pub fn review_document(
        &mut self,
        reviewer: Address,
        doc_id: u64,
        decision: Decision,
        comments: String,
        quality_score: u32,
        ledger: u32,
    ) -> (r: Result<(), Error>)
        requires
            old(self).wf(),
            old(self)@.review_error(reviewer@, doc_id, quality_score, comments@) is None ==> old(
                self,
            )@.review_fits(reviewer@, doc_id, quality_score),
        ensures
            final(self).wf(),
            keeps_history(old(self)@, final(self)@),
            match r {
                Ok(()) => old(self)@.review_error(reviewer@, doc_id, quality_score, comments@) is None
                    && final(self)@ == (ChainView {
                    documents: old(self)@.documents.update(
                        doc_id - 1,
                        after_vote(old(self)@.document(doc_id), decision, ledger),
                    ),
                    doc_reviewers: old(self)@.doc_reviewers.update(
                        doc_id - 1,
                        old(self)@.reviewers_of(doc_id).push(reviewer),
                    ),
                    review_records: old(self)@.review_records.insert(
                        (reviewer@, doc_id),
                        ReviewRecord {
                            reviewer,
                            doc_id,
                            decision,
                            comments,
                            quality_score,
                            submitted_at: ledger,
                        },
                    ),
                    reviewers: old(self)@.reviewers.insert(
                        reviewer@,
                        after_review(old(self)@.reviewers[reviewer@], quality_score),
                    ),
                    effects: old(self)@.effects + vote_events(
                        old(self)@.document(doc_id),
                        reviewer,
                        decision,
                        quality_score,
                    ),
                    ..old(self)@
                }),
                Err(e) => old(self)@.review_error(reviewer@, doc_id, quality_score, comments@) == Some(e)
                    && final(self)@ == old(self)@,
            },
    {
        self.require_not_paused()?;
        let slashed = match self.reviewers.get(&reviewer) {
            Some(p) => p.slashed,
            None => return Err(Error::ReviewerNotFound),
        };
        if slashed {
            return Err(Error::ReviewerSlashed);
        }
        if quality_score < 1 || quality_score > 10 {
            return Err(Error::InvalidQualityScore);
        }
        if char_len(&comments) > MAX_COMMENT_CHARS {
            return Err(Error::InvalidInput);
        }
        let i = match self.doc_index(doc_id) {
            Some(i) => i,
            None => return Err(Error::DocumentNotFound),
        };
        if self.docs[i].author == reviewer {
            return Err(Error::CannotReviewOwnDoc);
        }
        if self.docs[i].status != DocStatus::PendingReview && self.docs[i].status
            != DocStatus::UnderReview {
            return Err(Error::NotPendingReview);
        }
        let record_key = AccountDoc { account: reviewer.clone(), doc_id };
        if self.review_records.contains(&record_key) {
            return Err(Error::AlreadyReviewed);
        }
        let ghost old_view = self@;
        let approved = decision == Decision::Approve;
        if approved {
            self.docs[i].approve_votes = self.docs[i].approve_votes + 1;
        } else {
            self.docs[i].reject_votes = self.docs[i].reject_votes + 1;
        }
        self.docs[i].status = DocStatus::UnderReview;
        let ghost voted_view = self@;
        assert(self@.documents =~= old_view.documents.update(
            doc_id - 1,
            with_vote(old_view.document(doc_id), decision),
        ));
        self.doc_reviewers[i].push(reviewer.clone());
        assert(self@.doc_reviewers =~= old_view.doc_reviewers.update(
            doc_id - 1,
            old_view.reviewers_of(doc_id).push(reviewer),
        ));
        let record = ReviewRecord {
            reviewer: reviewer.clone(),
            doc_id,
            decision,
            comments,
            quality_score,
            submitted_at: ledger,
        };
        let ghost record_value = record;
        self.review_records.insert(record_key, record);
        let mut profile = match self.reviewers.take(&reviewer) {
            Some(p) => p,
            None => {
                assert(false);
                return Err(Error::ReviewerNotFound);
            },
        };
        profile.review_count = profile.review_count + 1;
        profile.total_quality_given = profile.total_quality_given + quality_score as u64;
        proof {
            lemma_consistent_profile_fits(profile);
        }
        recompute_reputation(&mut profile);
        let profile_key = reviewer.clone();
        self.reviewers.insert(profile_key, profile);
        assert(self@.reviewers =~= old_view.reviewers.insert(
            reviewer@,
            after_review(old_view.reviewers[reviewer@], quality_score),
        ));
        let ghost who = reviewer;
        let approve_votes = self.docs[i].approve_votes;
        let reject_votes = self.docs[i].reject_votes;
        self.effects.push(
            Effect::Publish(Event::Reviewed { doc_id, reviewer, approved, quality_score }),
        );
        let total = approve_votes + reject_votes;
        proof {
            lemma_vote_counted(old_view, self@, i as int, who, record_value);
            lemma_vote_listed(old_view, self@, i as int, doc_id, who, record_value);
            assert(self@.earnings == old_view.earnings);
        }
        if publication_quorum_met(approve_votes, reject_votes) || total >= REVIEW_PANEL_SIZE {
            self.do_finalize(i, ledger);
        }
        assert(self@.effects =~= old_view.effects + vote_events(
            old_view.document(doc_id),
            reviewer,
            decision,
            quality_score,
        ));
        assert(self@.documents == old_view.documents.update(
            doc_id - 1,
            after_vote(old_view.document(doc_id), decision, ledger),
        ));
        assert(self@.doc_reviewers == old_view.doc_reviewers.update(
            doc_id - 1,
            old_view.reviewers_of(doc_id).push(reviewer),
        ));
        assert(self@.reviewers == old_view.reviewers.insert(
            reviewer@,
            after_review(old_view.reviewers[reviewer@], quality_score),
        ));
        Ok(())
    }

    /// Takes the referees' verdict on a document under vetting with at least
    /// two votes: published with at least two approvals making up more than
    /// half of the votes, rejected otherwise. Anyone may call it.
    pub fn finalize_document(&mut self, doc_id: u64, ledger: u32) -> (r: Result<(), Error>)
        requires
            old(self).wf(),
        ensures
            final(self).wf(),
            keeps_history(old(self)@, final(self)@),
            match r {
                Ok(()) => old(self)@.finalize_error(doc_id) is None && final(self)@ == (ChainView {
                    documents: old(self)@.documents.update(
                        doc_id - 1,
                        with_verdict(old(self)@.document(doc_id), ledger),
                    ),
                    effects: old(self)@.effects.push(
                        Effect::Publish(verdict_event(old(self)@.document(doc_id))),
                    ),
                    ..old(self)@
                }),
                Err(e) => old(self)@.finalize_error(doc_id) == Some(e) && final(self)@ == old(self)@,
            },
    {
        let i = match self.doc_index(doc_id) {
            Some(i) => i,
            None => return Err(Error::DocumentNotFound),
        };
        if self.docs[i].status != DocStatus::UnderReview {
            return Err(Error::NotReadyToFinalize);
        }
        if self.docs[i].approve_votes + self.docs[i].reject_votes < MIN_APPROVALS {
            return Err(Error::NotReadyToFinalize);
        }
        self.do_finalize(i, ledger);
        Ok(())
    }
}


proof fn lemma_per_share(pool: int, n: int, j: int)
    by (nonlinear_arith)
    requires
        pool >= 0,
        n > 0,
        0 <= j <= n,
    ensures
        0 <= (pool / n) * j <= (pool / n) * n <= pool,
        (pool / n) * (j + 1) == (pool / n) * j + pool / n,
{
}

impl AcadChain {
    /// Credits `amount` (saturating) to the pending earnings of `who`.
    fn add_earnings(&mut self, who: &Address, amount: i128)
        requires
            old(self).wf(),
            old(self)@.initialized(),
            amount >= 0,
        ensures
            final(self).wf(),
            keeps_history(old(self)@, final(self)@),
            final(self)@ == (ChainView { earnings: credited(old(self)@.earnings, who@, amount), ..old(self)@ }),
    {
        let current: i128 = match self.earnings.get(who) {
            Some(b) => *b,
            None => 0,
        };
        let updated = saturating_add(current, amount);
        self.earnings.insert(who.clone(), updated);
    }

    /// Buys a reader access to a published document for about 30 days of
    /// ledgers and returns the ledger at which the access ends. The price
    /// moves from the reader to the platform and is credited 70% to the
    /// author, 20% to the treasury, and 10% evenly to the document's
    /// referees (the rounding remainder, or the whole 10% when nobody
    /// voted on it, to the treasury). Refused while an earlier access is
    /// still running. The reader signs.
    pub fn purchase_access(&mut self, reader: Address, doc_id: u64, ledger: u32) -> (r: Result<u64, Error>)
        requires
            old(self).wf(),
            old(self)@.purchase_error(reader@, doc_id, ledger) is None ==> {
                &&& ledger + ACCESS_TTL_LEDGERS <= u32::MAX
                &&& old(self)@.document(doc_id).access_count < u64::MAX
            },
        ensures
            final(self).wf(),
            renews_grant(old(self)@, final(self)@, (reader@, doc_id)),
            match r {
                Ok(expiry) => {
                    let d = old(self)@.document(doc_id);
                    let price = d.access_price;
                    &&& old(self)@.purchase_error(reader@, doc_id, ledger) is None
                    &&& expiry == ledger + ACCESS_TTL_LEDGERS
                    &&& final(self)@ == (ChainView {
                        earnings: old(self)@.earnings_after_sale(doc_id),
                        access_expiry: old(self)@.access_expiry.insert((reader@, doc_id), expiry as u32),
                        documents: old(self)@.documents.update(
                            doc_id - 1,
                            Document {
                                total_earned: sat_add(d.total_earned, price),
                                access_count: (d.access_count + 1) as u64,
                                ..d
                            },
                        ),
                        effects: old(self)@.effects.push(
                            Effect::Collect { token: old(self)@.config.unwrap().xlm_sac, from: reader, amount: price },
                        ).push(
                            Effect::Publish(
                                Event::AccessPurchased { doc_id, reader, price, expiry: expiry as u32 },
                            ),
                        ),
                        ..old(self)@
                    })
                },
                Err(e) => old(self)@.purchase_error(reader@, doc_id, ledger) == Some(e)
                    && final(self)@ == old(self)@,
            },
    {
        self.require_not_paused()?;
        let i = match self.doc_index(doc_id) {
            Some(i) => i,
            None => return Err(Error::DocumentNotFound),
        };
        if self.docs[i].status != DocStatus::Published {
            return Err(Error::DocumentNotPublished);
        }
        let access_key = AccountDoc { account: reader.clone(), doc_id };
        let current_expiry: u32 = match self.access_expiry.get(&access_key) {
            Some(e) => *e,
            None => 0,
        };
        if current_expiry > ledger {
            return Err(Error::AlreadyHasAccess);
        }
        let ghost old_view = self@;
        let (token, treasury) = match &self.config {
            Some(c) => (c.xlm_sac.clone(), c.treasury.clone()),
            None => {
                assert(old_view.documents[i as int].status == DocStatus::PendingAiVerification);
                return Err(Error::NotInitialized);
            },
        };
        let price = self.docs[i].access_price;
        let author = self.docs[i].author.clone();
        let (author_share, platform_share, pool) = royalty_split(price);
        self.add_earnings(&author, author_share);
        self.add_earnings(&treasury, platform_share);
        let ghost m2 = self@.earnings;
        let ghost keys = account_keys(old_view.reviewers_of(doc_id));
        let n = self.doc_reviewers[i].len();
        if n > 0 {
            let per = pool / (n as i128);
            let mut distributed: i128 = 0;
            let mut j: usize = 0;
            while j < n
                invariant
                    self.wf(),
                    self@.initialized(),
                    i < self@.documents.len(),
                    n == self@.doc_reviewers[i as int].len(),
                    self@ == (ChainView { earnings: self@.earnings, ..old_view }),
                    keys == account_keys(self@.doc_reviewers[i as int]),
                    pool >= 0,
                    per == (pool as int) / (n as int),
                    j <= n,
                    distributed == per * j,
                    self@.earnings == credited_each(m2, keys.take(j as int), per),
                decreases n - j,
            {
                proof {
                    lemma_per_share(pool as int, n as int, j as int);
                    lemma_per_share(pool as int, n as int, (j + 1) as int);
                }
                let rev = self.doc_reviewers[i][j].clone();
                assert(keys.take(j + 1).drop_last() =~= keys.take(j as int));
                self.add_earnings(&rev, per);
                distributed = distributed + per;
                j = j + 1;
            }
            proof {
                lemma_per_share(pool as int, n as int, n as int);
                assert(keys.take(n as int) =~= keys);
            }
            let remainder = pool - distributed;
            if remainder > 0 {
                self.add_earnings(&treasury, remainder);
            }
        } else {
            self.add_earnings(&treasury, pool);
        }
        assert(self@.earnings == old_view.earnings_after_sale(doc_id));
        let expiry = ledger + ACCESS_TTL_LEDGERS;
        self.access_expiry.insert(access_key, expiry);
        assert(self@.access_expiry.remove((reader@, doc_id)) =~= old_view.access_expiry.remove(
            (reader@, doc_id),
        ));
        let earned = saturating_add(self.docs[i].total_earned, price);
        self.docs[i].total_earned = earned;
        self.docs[i].access_count = self.docs[i].access_count + 1;
        self.effects.push(Effect::Collect { token, from: reader.clone(), amount: price });
        self.effects.push(Effect::Publish(Event::AccessPurchased { doc_id, reader, price, expiry }));
        let ghost d = old_view.document(doc_id);
        assert(self@.documents =~= old_view.documents.update(
            doc_id - 1,
            Document { total_earned: sat_add(d.total_earned, price), access_count: (d.access_count + 1) as u64, ..d },
        ));
        proof {
            lemma_votes_kept(old_view, self@, i as int);
        }
        Ok(expiry as u64)
    }

    /// Pays out all pending earnings of `beneficiary`; the balance is cleared
    /// before the payment. The beneficiary signs.
    pub fn withdraw_earnings(&mut self, beneficiary: Address) -> (r: Result<(), Error>)
        requires
            old(self).wf(),
        ensures
            final(self).wf(),
            keeps_history(old(self)@, final(self)@),
            match r {
                Ok(()) => old(self)@.withdraw_error(beneficiary@) is None && final(self)@ == (ChainView {
                    earnings: old(self)@.earnings.remove(beneficiary@),
                    effects: old(self)@.effects.push(
                        Effect::Pay {
                            token: old(self)@.config.unwrap().xlm_sac,
                            to: beneficiary,
                            amount: old(self)@.balance(beneficiary@),
                        },
                    ).push(
                        Effect::Publish(
                            Event::Withdrawn { beneficiary, amount: old(self)@.balance(beneficiary@) },
                        ),
                    ),
                    ..old(self)@
                }),
                Err(e) => old(self)@.withdraw_error(beneficiary@) == Some(e) && final(self)@ == old(self)@,
            },
    {
        let balance: i128 = match self.earnings.get(&beneficiary) {
            Some(b) => *b,
            None => 0,
        };
        if balance <= 0 {
            return Err(Error::NoEarnings);
        }
        let token = match &self.config {
            Some(c) => c.xlm_sac.clone(),
            None => {
                assert(self@.earnings.contains_key(beneficiary@));
                return Err(Error::NotInitialized);
            },
        };
        let _ = self.earnings.take(&beneficiary);
        self.effects.push(Effect::Pay { token, to: beneficiary.clone(), amount: balance });
        self.effects.push(Effect::Publish(Event::Withdrawn { beneficiary, amount: balance }));
        Ok(())
    }

    /// Revokes a published document (for takedowns and policy violations);
    /// refused for a document that is not published. Admin only.
    pub fn revoke_document(&mut self, doc_id: u64) -> (r: Result<(), Error>)
        requires
            old(self).wf(),
        ensures
            final(self).wf(),
            keeps_history(old(self)@, final(self)@),
            match r {
                Ok(()) => old(self)@.revoke_error(doc_id) is None && final(self)@ == (ChainView {
                    documents: old(self)@.documents.update(
                        doc_id - 1,
                        Document { status: DocStatus::Revoked, ..old(self)@.document(doc_id) },
                    ),
                    effects: old(self)@.effects.push(Effect::Publish(Event::DocumentRevoked { doc_id })),
                    ..old(self)@
                }),
                Err(e) => old(self)@.revoke_error(doc_id) == Some(e) && final(self)@ == old(self)@,
            },
    {
        self.require_admin()?;
        let i = match self.doc_index(doc_id) {
            Some(i) => i,
            None => return Err(Error::DocumentNotFound),
        };
        if self.docs[i].status != DocStatus::Published {
            return Err(Error::DocumentNotPublished);
        }
        let ghost old_view = self@;
        self.docs[i].status = DocStatus::Revoked;
        self.effects.push(Effect::Publish(Event::DocumentRevoked { doc_id }));
        assert(self@.documents =~= old_view.documents.update(
            doc_id - 1,
            Document { status: DocStatus::Revoked, ..old_view.document(doc_id) },
        ));
        proof {
            lemma_votes_kept(old_view, self@, i as int);
        }
        Ok(())
    }

    /// Slashes a referee: the profile is marked slashed, its stake drops to
    /// zero, and a positive forfeited stake is credited to the treasury.
    /// Admin only.
    pub fn slash_reviewer(&mut self, reviewer: Address, reason: String) -> (r: Result<(), Error>)
        requires
            old(self).wf(),
        ensures
            final(self).wf(),
            keeps_history(old(self)@, final(self)@),
            match r {
                Ok(()) => {
                    let p = old(self)@.reviewers[reviewer@];
                    &&& old(self)@.slash_error(reviewer@) is None
                    &&& final(self)@ == (ChainView {
                        reviewers: old(self)@.reviewers.insert(reviewer@, Reviewer { slashed: true, stake: 0, ..p }),
                        earnings: old(self)@.earnings_after_slash(reviewer@),
                        effects: old(self)@.effects.push(
                            Effect::Publish(Event::ReviewerSlashed { reviewer, reason }),
                        ),
                        ..old(self)@
                    })
                },
                Err(e) => old(self)@.slash_error(reviewer@) == Some(e) && final(self)@ == old(self)@,
            },
    {
        let treasury = match &self.config {
            Some(c) => c.treasury.clone(),
            None => return Err(Error::NotInitialized),
        };
        if !self.reviewers.contains(&reviewer) {
            return Err(Error::ReviewerNotFound);
        }
        let ghost old_view = self@;
        let mut profile = match self.reviewers.take(&reviewer) {
            Some(p) => p,
            None => {
                assert(false);
                return Err(Error::ReviewerNotFound);
            },
        };
        let forfeited = profile.stake;
        profile.slashed = true;
        profile.stake = 0;
        self.reviewers.insert(reviewer.clone(), profile);
        assert(self@.reviewers =~= old_view.reviewers.insert(
            reviewer@,
            Reviewer { slashed: true, stake: 0, ..old_view.reviewers[reviewer@] },
        ));
        if forfeited > 0 {
            self.add_earnings(&treasury, forfeited);
        }
        self.effects.push(Effect::Publish(Event::ReviewerSlashed { reviewer, reason }));
        Ok(())
    }
}


/// Everything the platform keeps, laid out for a host's storage.
pub struct ChainParts {
    pub config: Option<Config>,
    pub paused: bool,
    pub doc_count: u64,
    pub pre_init_documents: u64,
    pub docs: Vec<Document>,
    pub doc_reviewers: Vec<Vec<Address>>,
    pub reviewers: Vec<(Address, Reviewer)>,
    pub review_records: Vec<(AccountDoc, ReviewRecord)>,
    pub access_expiry: Vec<(AccountDoc, u32)>,
    pub earnings: Vec<(Address, i128)>,
}

/// The state that stored parts describe (with an empty outbox).
pub open spec fn parts_view(p: ChainParts) -> ChainView {
    ChainView {
        config: p.config,
        paused: p.paused,
        doc_count: p.doc_count,
        pre_init_documents: p.pre_init_documents,
        documents: p.docs@,
        doc_reviewers: p.doc_reviewers@.map_values(|v: Vec<Address>| v@),
        reviewers: entries_map(p.reviewers@),
        review_records: entries_map(p.review_records@),
        access_expiry: entries_map(p.access_expiry@),
        earnings: entries_map(p.earnings@),
        effects: Seq::empty(),
    }
}

/// Stored parts that describe a state the platform can be in.
pub open spec fn parts_ok(p: ChainParts) -> bool {
    &&& keys_distinct(p.reviewers@)
    &&& keys_distinct(p.review_records@)
    &&& keys_distinct(p.access_expiry@)
    &&& keys_distinct(p.earnings@)
    &&& parts_view(p).valid()
}

fn document_ok(d: &Document) -> (r: bool)
    ensures
        r == document_valid(*d),
{
    let total = d.approve_votes as u64 + d.reject_votes as u64;
    if d.access_price < MIN_ACCESS_PRICE || total > u32::MAX as u64 {
        return false;
    }
    let quorum = publication_quorum_met(d.approve_votes, d.reject_votes);
    match d.status {
        DocStatus::Published => quorum,
        DocStatus::RejectedByReviewers => total >= MIN_APPROVALS as u64 && !quorum,
        _ => true,
    }
}

fn profile_ok(r: &Reviewer) -> (ok: bool)
    ensures
        ok == profile_counts_valid(*r),
{
    r.successful_approvals == 0 && (r.total_quality_given as u128) <= 10 * (r.review_count as u128)
        && r.reputation <= 100
}

fn all_documents_ok(docs: &Vec<Document>) -> (r: bool)
    ensures
        r == forall|i: int|
            0 <= i < docs@.len() ==> (#[trigger] docs@[i]).id == i + 1 && document_valid(docs@[i]),
{
    let n = docs.len();
    let mut i: usize = 0;
    while i < n
        invariant
            n == docs@.len(),
            i <= n,
            forall|j: int| 0 <= j < i ==> (#[trigger] docs@[j]).id == j + 1 && document_valid(docs@[j]),
        decreases n - i,
    {
        if docs[i].id != i as u64 + 1 || !document_ok(&docs[i]) {
            return false;
        }
        i = i + 1;
    }
    true
}

fn all_pending_ai(docs: &Vec<Document>) -> (r: bool)
    ensures
        r == forall|i: int|
            0 <= i < docs@.len() ==> (#[trigger] docs@[i]).status == DocStatus::PendingAiVerification,
{
    let n = docs.len();
    let mut i: usize = 0;
    while i < n
        invariant
            n == docs@.len(),
            i <= n,
            forall|j: int| 0 <= j < i ==> (#[trigger] docs@[j]).status == DocStatus::PendingAiVerification,
        decreases n - i,
    {
        if docs[i].status != DocStatus::PendingAiVerification {
            return false;
        }
        i = i + 1;
    }
    true
}

fn all_profiles_ok(e: &Vec<(Address, Reviewer)>) -> (r: bool)
    ensures
        r == forall|i: int| 0 <= i < e@.len() ==> profile_counts_valid(#[trigger] e@[i].1),
{
    let n = e.len();
    let mut i: usize = 0;
    while i < n
        invariant
            n == e@.len(),
            i <= n,
            forall|j: int| 0 <= j < i ==> profile_counts_valid(#[trigger] e@[j].1),
        decreases n - i,
    {
        if !profile_ok(&e[i].1) {
            return false;
        }
        i = i + 1;
    }
    true
}

fn all_balances_ok(e: &Vec<(Address, i128)>) -> (r: bool)
    ensures
        r == forall|i: int| 0 <= i < e@.len() ==> (#[trigger] e@[i]).1 >= 0,
{
    let n = e.len();
    let mut i: usize = 0;
    while i < n
        invariant
            n == e@.len(),
            i <= n,
            forall|j: int| 0 <= j < i ==> (#[trigger] e@[j]).1 >= 0,
        decreases n - i,
    {
        if e[i].1 < 0 {
            return false;
        }
        i = i + 1;
    }
    true
}

fn records_ok(e: &Vec<(AccountDoc, ReviewRecord)>, n: usize) -> (r: bool)
    ensures
        r == forall|i: int| 0 <= i < e@.len() ==> #[trigger] record_matches(e@[i].1, e@[i].0@, n as nat),
{
    let len = e.len();
    let mut i: usize = 0;
    while i < len
        invariant
            len == e@.len(),
            i <= len,
            forall|j: int| 0 <= j < i ==> #[trigger] record_matches(e@[j].1, e@[j].0@, n as nat),
        decreases len - i,
    {
        let k = &e[i].0;
        let rec = &e[i].1;
        if k.doc_id < 1 || k.doc_id as u128 > n as u128 || rec.doc_id != k.doc_id
            || !rec.reviewer.same_key(&k.account) {
            assert(!record_matches(e@[i as int].1, e@[i as int].0@, n as nat));
            return false;
        }
        i = i + 1;
    }
    true
}

fn listed_in(voters: &Vec<Address>, who: &Address) -> (r: bool)
    ensures
        r == is_listed(voters@, who@),
{
    let n = voters.len();
    let mut j: usize = 0;
    while j < n
        invariant
            n == voters@.len(),
            j <= n,
            forall|a: int| 0 <= a < j ==> (#[trigger] voters@[a])@ != who@,
        decreases n - j,
    {
        if voters[j].same_key(who) {
            return true;
        }
        j = j + 1;
    }
    false
}

/// Each record of a document numbered after setup names one of the
/// document's voters; a record whose document has no voter list fails too.
fn records_listed(e: &Vec<(AccountDoc, ReviewRecord)>, voters: &Vec<Vec<Address>>, first: u64) -> (r: bool)
    ensures
        r == forall|i: int|
            0 <= i < e@.len() && (#[trigger] e@[i]).0.doc_id > first ==> 1 <= e@[i].0.doc_id
                <= voters@.len() && is_listed(voters@[e@[i].0.doc_id - 1]@, e@[i].0@.0),
{
    let len = e.len();
    let mut i: usize = 0;
    while i < len
        invariant
            len == e@.len(),
            i <= len,
            forall|j: int|
                0 <= j < i && (#[trigger] e@[j]).0.doc_id > first ==> 1 <= e@[j].0.doc_id
                    <= voters@.len() && is_listed(voters@[e@[j].0.doc_id - 1]@, e@[j].0@.0),
        decreases len - i,
    {
        let d = e[i].0.doc_id;
        if d > first {
            if d < 1 || d as u128 > voters.len() as u128 {
                return false;
            }
            if !listed_in(&voters[(d - 1) as usize], &e[i].0.account) {
                return false;
            }
        }
        i = i + 1;
    }
    true
}

fn voters_ok(d: &Document, voters: &Vec<Address>, records: &AssocMap<AccountDoc, ReviewRecord>) -> (r: bool)
    requires
        records.wf(),
    ensures
        r == voters_recorded(*d, voters@, records@),
{
    let n = voters.len();
    if d.approve_votes as u64 + d.reject_votes as u64 != n as u64 {
        return false;
    }
    let mut i: usize = 0;
    while i < n
        invariant
            records.wf(),
            n == voters@.len(),
            i <= n,
            forall|a: int| 0 <= a < i ==> records@.contains_key(((#[trigger] voters@[a])@, d.id)),
            forall|a: int, b: int| 0 <= a < b < n && a < i ==> (#[trigger] voters@[a])@ != (
            #[trigger] voters@[b])@,
            forall|a: int| 0 <= a < i ==> (#[trigger] voters@[a])@ != d.author@,
        decreases n - i,
    {
        let key = AccountDoc { account: voters[i].clone(), doc_id: d.id };
        if !records.contains(&key) {
            return false;
        }
        if voters[i].same_key(&d.author) {
            return false;
        }
        let mut j: usize = i + 1;
        while j < n
            invariant
                n == voters@.len(),
                i < n,
                i < j <= n,
                forall|b: int| i < b < j ==> voters@[i as int]@ != (#[trigger] voters@[b])@,
            decreases n - j,
        {
            if voters[i].same_key(&voters[j]) {
                return false;
            }
            j = j + 1;
        }
        i = i + 1;
    }
    true
}

impl AcadChain {
    /// Hands over everything the platform keeps, for storage; pending
    /// effects are dropped (hand them to the host first). The parts are
    /// accepted again by `from_parts`, which gives back the same state.
    pub fn into_parts(self) -> (p: ChainParts)
        requires
            self.wf(),
        ensures
            parts_ok(p),
            parts_view(p) == (ChainView { effects: Seq::empty(), ..self@ }),
    {
        let AcadChain {
            config,
            paused,
            doc_count,
            pre_init_documents,
            docs,
            doc_reviewers,
            reviewers,
            review_records,
            access_expiry,
            earnings,
            effects: _,
        } = self;
        let p = ChainParts {
            config,
            paused,
            doc_count,
            pre_init_documents,
            docs,
            doc_reviewers,
            reviewers: reviewers.into_entries(),
            review_records: review_records.into_entries(),
            access_expiry: access_expiry.into_entries(),
            earnings: earnings.into_entries(),
        };
        assert(parts_view(p) =~= (ChainView { effects: Seq::empty(), ..self@ }));
        p
    }

    /// Rebuilds the platform from stored parts, with an empty outbox; `None`
    /// when the parts describe no state the platform can be in.
    pub fn from_parts(p: ChainParts) -> (r: Option<AcadChain>)
        ensures
            r is Some <==> parts_ok(p),
            r matches Some(c) ==> c.wf() && c@ == parts_view(p),
    {
        let ghost pv = parts_view(p);
        let ChainParts {
            config,
            paused,
            doc_count,
            pre_init_documents,
            docs,
            doc_reviewers,
            reviewers,
            review_records,
            access_expiry,
            earnings,
        } = p;
        let ghost rev_entries = reviewers@;
        let ghost earn_entries = earnings@;
        let ghost rec_entries = review_records@;
        let recs_ok = records_ok(&review_records, docs.len());
        let listed_ok = records_listed(&review_records, &doc_reviewers, pre_init_documents);
        let no_records = review_records.len() == 0;
        let profiles_ok = all_profiles_ok(&reviewers);
        let balances_ok = all_balances_ok(&earnings);
        let no_reviewers = reviewers.len() == 0;
        let no_earnings = earnings.len() == 0;
        let reviewers = match AssocMap::from_entries(reviewers) {
            Some(m) => m,
            None => return None,
        };
        let review_records = match AssocMap::from_entries(review_records) {
            Some(m) => m,
            None => return None,
        };
        let access_expiry = match AssocMap::from_entries(access_expiry) {
            Some(m) => m,
            None => return None,
        };
        let earnings = match AssocMap::from_entries(earnings) {
            Some(m) => m,
            None => return None,
        };
        assert(pv.reviewers == entries_map(rev_entries));
        assert(pv.earnings == entries_map(earn_entries));
        assert(pv.review_records == review_records@);
        assert(pv.documents == docs@);
        assert(pv.doc_reviewers == doc_reviewers@.map_values(|v: Vec<Address>| v@));
        if doc_count as u128 > docs.len() as u128 || docs.len() != doc_reviewers.len() {
            return None;
        }
        if (doc_count as u128) < docs.len() as u128 && docs.len() as u128 != pre_init_documents as u128 {
            return None;
        }
        if !all_documents_ok(&docs) {
            return None;
        }
        if !recs_ok {
            proof {
                let i = choose|i: int| 0 <= i < rec_entries.len() && !#[trigger] record_matches(
                    rec_entries[i].1,
                    rec_entries[i].0@,
                    docs@.len(),
                );
                crate::assoc::lemma_entries_lookup(rec_entries, i);
            }
            return None;
        }
        if !listed_ok {
            proof {
                let i = choose|i: int|
                    0 <= i < rec_entries.len() && (#[trigger] rec_entries[i]).0.doc_id
                        > pre_init_documents && !(1 <= rec_entries[i].0.doc_id
                        <= doc_reviewers@.len() && is_listed(
                        doc_reviewers@[rec_entries[i].0.doc_id - 1]@,
                        rec_entries[i].0@.0,
                    ));
                crate::assoc::lemma_entries_lookup(rec_entries, i);
                assert(record_matches(rec_entries[i].1, rec_entries[i].0@, docs@.len()));
                let k = rec_entries[i].0@;
                assert(pv.doc_reviewers[k.1 - 1] == doc_reviewers@[k.1 - 1]@);
            }
            return None;
        }
        if !profiles_ok {
            proof {
                let i = choose|i: int| 0 <= i < rev_entries.len() && !profile_counts_valid(#[trigger] rev_entries[i].1);
                crate::assoc::lemma_entries_lookup(rev_entries, i);
            }
            return None;
        }
        if !balances_ok {
            proof {
                let i = choose|i: int| 0 <= i < earn_entries.len() && !((#[trigger] earn_entries[i]).1 >= 0);
                crate::assoc::lemma_entries_lookup(earn_entries, i);
            }
            return None;
        }
        if config.is_none() {
            if paused {
                return None;
            }
            if !no_reviewers {
                proof {
                    crate::assoc::lemma_entries_lookup(rev_entries, 0);
                }
                return None;
            }
            if !no_earnings {
                proof {
                    crate::assoc::lemma_entries_lookup(earn_entries, 0);
                }
                return None;
            }
            if !no_records {
                proof {
                    crate::assoc::lemma_entries_lookup(rec_entries, 0);
                }
                return None;
            }
            if !all_pending_ai(&docs) {
                return None;
            }
        }
        let n = docs.len();
        let mut i: usize = 0;
        while i < n
            invariant
                n == docs@.len(),
                n == doc_reviewers@.len(),
                i <= n,
                review_records.wf(),
                pv == parts_view(p),
                pv.documents == docs@,
                pv.doc_reviewers == doc_reviewers@.map_values(|v: Vec<Address>| v@),
                pv.review_records == review_records@,
                forall|j: int|
                    0 <= j < i ==> #[trigger] voters_recorded(
                        docs@[j],
                        doc_reviewers@[j]@,
                        review_records@,
                    ),
            decreases n - i,
        {
            if !voters_ok(&docs[i], &doc_reviewers[i], &review_records) {
                proof {
                    assert(pv.doc_reviewers[i as int] == doc_reviewers@[i as int]@);
                    assert(!voters_recorded(pv.documents[i as int], pv.doc_reviewers[i as int], pv.review_records));
                    assert(!pv.valid());
                }
                return None;
            }
            i = i + 1;
        }
        let c = AcadChain {
            config,
            paused,
            doc_count,
            pre_init_documents,
            docs,
            doc_reviewers,
            reviewers,
            review_records,
            access_expiry,
            earnings,
            effects: Vec::new(),
        };
        assert(c@ =~= pv);
        proof {
            assert forall|k: Seq<char>| #[trigger] pv.reviewers.contains_key(k) implies profile_counts_valid(
                pv.reviewers[k],
            ) by {
                lemma_entries_value(rev_entries, k);
            }
            assert forall|k: Seq<char>| #[trigger] pv.earnings.contains_key(k) implies pv.earnings[k] >= 0 by {
                lemma_entries_value(earn_entries, k);
            }
            assert forall|k: (Seq<char>, u64)| #[trigger] pv.review_records.contains_key(k) implies record_matches(
                pv.review_records[k],
                k,
                pv.documents.len(),
            ) by {
                lemma_entries_value(rec_entries, k);
            }
            assert forall|k: (Seq<char>, u64)| #[trigger] pv.review_records.contains_key(k) && k.1
                > pv.pre_init_documents implies is_listed(pv.doc_reviewers[k.1 - 1], k.0) by {
                lemma_entries_value(rec_entries, k);
                let i = choose|i: int|
                    0 <= i < rec_entries.len() && rec_entries[i].0@ == k && entries_map(rec_entries)[k]
                        == rec_entries[i].1;
                assert(rec_entries[i].0.doc_id > pre_init_documents);
                assert(pv.doc_reviewers[k.1 - 1] == doc_reviewers@[k.1 - 1]@);
            }
            if pv.config is None {
                assert forall|k: (Seq<char>, u64)| !#[trigger] pv.review_records.contains_key(k) by {
                    if pv.review_records.contains_key(k) {
                        lemma_entries_value(rec_entries, k);
                    }
                }
                assert forall|k: Seq<char>| !#[trigger] pv.earnings.contains_key(k) by {
                    if pv.earnings.contains_key(k) {
                        lemma_entries_value(earn_entries, k);
                    }
                }
                assert forall|k: Seq<char>| !#[trigger] pv.reviewers.contains_key(k) by {
                    if pv.reviewers.contains_key(k) {
                        lemma_entries_value(rev_entries, k);
                    }
                }
            }
            assert forall|j: int| 0 <= j < pv.documents.len() implies #[trigger] voters_recorded(
                pv.documents[j],
                pv.doc_reviewers[j],
                pv.review_records,
            ) by {
                assert(pv.doc_reviewers[j] == c.doc_reviewers@[j]@);
                assert(voters_recorded(c.docs@[j], c.doc_reviewers@[j]@, c.review_records@));
            }
        }
        Some(c)
    }
}

} // verus!
