//! A marketplace for academic documents: authors submit documents, an AI
//! check and staked human referees vet them, readers buy access, and each
//! sale is split between the author, the platform and the referees.
pub mod assoc;
pub mod types;
pub mod rules;
pub mod chain;
pub mod laws;

pub use chain::{AcadChain, ChainParts};
pub use types::{
    Address, Decision, DocStatus, DocType, Document, Effect, Error, Event, ReviewRecord, Reviewer,
};
