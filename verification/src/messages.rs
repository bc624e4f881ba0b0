//! Outcomes that the node's subsystems report to one another.

use vstd::prelude::*;
use vstd::string::StringExecFns;
use crate::hash::{blake2_256_digest, BlockHash};

verus! {

/// The text that `Debug` gives for a string: the string in double quotes, with
/// what cannot stand there as it is written as an escape.
pub uninterp spec fn debug_text(text: Seq<char>) -> Seq<char>;

/// Formats `text` with `{:?}`, which calls std's `Debug` for `str`. Nothing is
/// proved of it: the contract only gives the result its name, as a function of
/// the characters alone.
#[verifier::external_body]
fn debug_format(text: &str) -> (quoted: String)
    ensures
        quoted@ == debug_text(text@),
{
    format!("{:?}", text)
}

/// What a failed validation says of itself, given its reason as `Debug` shows it.
pub fn validation_failed_text(quoted_reason: &str) -> (text: String)
    ensures
        text@ == "Validation failed with "@ + quoted_reason@,
{
    "Validation failed with ".to_owned().concat(quoted_reason)
}

/// Validation failed for a reason internal to the validator; the text says why.
#[derive(Debug)]
pub struct ValidationFailed(pub String);

impl ValidationFailed {
    /// The error in words: that validation failed, and the reason in quotes.
    pub fn message(&self) -> (text: String)
        ensures
            text@ == "Validation failed with "@ + debug_text(self.0@),
    {
        let quoted = debug_format(self.0.as_str());
        validation_failed_text(quoted.as_str())
    }
}

/// What came of checking a validation function ahead of time.
#[derive(Debug, PartialEq, Eq, Structural)]
pub enum PreCheckOutcome {
    /// The code was compiled within the limits.
    Valid,
    /// The code cannot be compiled, and it is certain that the code is at fault.
    Invalid,
    /// The code was not compiled, for a reason that need not lie in the code.
    Failed,
}

/// What came of importing dispute statements.
#[derive(Clone, Copy, Debug, PartialEq, Eq, Structural)]
pub enum ImportStatementsResult {
    /// The import was invalid, and the peer that sent it should be banned.
    InvalidImport,
    /// The import was valid and can be confirmed to the peer.
    ValidImport,
}

/// Why available data was not stored.
#[derive(Clone, Copy, Debug, PartialEq, Eq, Structural)]
pub enum StoreAvailableDataError {
    /// The erasure root computed from the data is not the expected one.
    InvalidErasureRoot,
}

impl StoreAvailableDataError {
    /// The error in words.
    pub fn message(&self) -> (text: String)
        ensures
            text@ == "The computed erasure root did not match expected one"@,
    {
        "The computed erasure root did not match expected one".to_owned()
    }
}

/// The hash of a candidate's receipt.
#[derive(Clone, Copy, Debug, PartialEq, Eq)]
pub struct CandidateHash(pub BlockHash);

/// The number of a parachain.
#[derive(Clone, Copy, Debug, PartialEq, Eq)]
pub struct ParaId(pub u32);

/// What a candidate's receipt says of where the candidate belongs.
#[derive(Clone, Copy, Debug, PartialEq, Eq)]
pub struct CandidateDescriptor {
    /// The parachain that the candidate is a block of.
    pub para_id: ParaId,
    /// The relay-chain block in whose context the candidate is to be run.
    pub relay_parent: BlockHash,
}

/// What the relay chain holds for validating a candidate.
#[derive(Clone, Debug, PartialEq, Eq)]
pub struct PersistedValidationData {
    /// The head data of the parachain block that the candidate builds on.
    pub parent_head: Vec<u8>,
}

/// A candidate that might be added to the prospective parachains: either a
/// complete one, whose receipt was fetched, or the claims made of one that was not.
#[derive(Clone, Debug, PartialEq, Eq)]
pub enum HypotheticalCandidate {
    /// A complete candidate.
    Complete {
        /// The hash of the candidate.
        candidate_hash: CandidateHash,
        /// The descriptor of the candidate's receipt.
        receipt: CandidateDescriptor,
        /// The persisted validation data of the candidate.
        persisted_validation_data: PersistedValidationData,
    },
    /// An incomplete candidate.
    Incomplete {
        /// The claimed hash of the candidate.
        candidate_hash: CandidateHash,
        /// The claimed parachain of the candidate.
        candidate_para: ParaId,
        /// The claimed hash of the head data that the candidate builds on.
        parent_head_data_hash: BlockHash,
        /// The claimed relay parent of the candidate.
        candidate_relay_parent: BlockHash,
    },
}

impl HypotheticalCandidate {
    /// The hash of the candidate.
    pub fn candidate_hash(&self) -> (hash: CandidateHash)
        ensures
            hash == match *self {
                HypotheticalCandidate::Complete { candidate_hash, .. } => candidate_hash,
                HypotheticalCandidate::Incomplete { candidate_hash, .. } => candidate_hash,
            },
    {
        match *self {
            HypotheticalCandidate::Complete { candidate_hash, .. } => candidate_hash,
            HypotheticalCandidate::Incomplete { candidate_hash, .. } => candidate_hash,
        }
    }

    /// The parachain of the candidate: what its receipt says, or what is claimed.
    pub fn candidate_para(&self) -> (para: ParaId)
        ensures
            para == match *self {
                HypotheticalCandidate::Complete { receipt, .. } => receipt.para_id,
                HypotheticalCandidate::Incomplete { candidate_para, .. } => candidate_para,
            },
    {
        match self {
            HypotheticalCandidate::Complete { receipt, .. } => receipt.para_id,
            HypotheticalCandidate::Incomplete { candidate_para, .. } => *candidate_para,
        }
    }

    /// The hash of the head data that the candidate builds on: that of the
    /// parent head in its validation data, or what is claimed.
    pub fn parent_head_data_hash(&self) -> (hash: BlockHash)
        ensures
            match *self {
                HypotheticalCandidate::Complete { persisted_validation_data, .. } => hash.bytes@
                    == blake2_256_digest(persisted_validation_data.parent_head@),
                HypotheticalCandidate::Incomplete { parent_head_data_hash, .. } => hash
                    == parent_head_data_hash,
            },
    {
        match self {
            HypotheticalCandidate::Complete { persisted_validation_data, .. } => BlockHash::of(
                persisted_validation_data.parent_head.as_slice(),
            ),
            HypotheticalCandidate::Incomplete { parent_head_data_hash, .. } => {
                *parent_head_data_hash
            },
        }
    }

    /// The relay parent of the candidate: what its receipt says, or what is claimed.
    pub fn relay_parent(&self) -> (hash: BlockHash)
        ensures
            hash == match *self {
                HypotheticalCandidate::Complete { receipt, .. } => receipt.relay_parent,
                HypotheticalCandidate::Incomplete {
                    candidate_relay_parent,
                    ..
                } => candidate_relay_parent,
            },
    {
        match self {
            HypotheticalCandidate::Complete { receipt, .. } => receipt.relay_parent,
            HypotheticalCandidate::Incomplete { candidate_relay_parent, .. } => {
                *candidate_relay_parent
            },
        }
    }
}

} // verus!
