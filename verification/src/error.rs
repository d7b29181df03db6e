use vstd::prelude::*;
use vstd::string::*;
use crate::admission::Rejection;
use crate::data::Vote;
use crate::data::VoteView;

verus! {

/// The error object handed back to a caller: a single human-readable message.
#[derive(Debug)]
pub struct ApiErr {
    pub err: String,
}

impl Clone for ApiErr {
    fn clone(&self) -> (r: Self)
        ensures
            r.err@ == self.err@,
    {
        ApiErr { err: self.err.clone() }
    }
}

/// The message that tells a caller why the ballot `v` was rejected.
pub open spec fn spec_rejection_message(why: Rejection, v: VoteView) -> Seq<char> {
    match why {
        Rejection::AlreadyVoted => v.addr + " ("@ + v.category_slug + ") Already voted."@,
        Rejection::UnknownCandidate => "Vote candidate '"@ + v.candidate_slug + "' does not exist"@,
        Rejection::UnknownCategory => "Vote category '"@ + v.category_slug + "' does not exist"@,
        Rejection::VerificationUnavailable => "FAIL verify sig"@,
        Rejection::InvalidSignature => "Signature is not valid"@,
        Rejection::StorageFailure => "FAIL persist vote"@,
    }
}

/// The message of a rejection, followed by what a failing collaborator
/// reported where the rejection is its failure.
pub open spec fn spec_described(why: Rejection, v: VoteView, detail: Option<Seq<char>>) -> Seq<char> {
    match detail {
        Some(text) if why == Rejection::VerificationUnavailable || why
            == Rejection::StorageFailure => spec_rejection_message(why, v) + ": "@ + text,
        _ => spec_rejection_message(why, v),
    }
}

impl ApiErr {
    /// The error object for a ballot that was rejected.
    pub fn from_rejection(why: Rejection, vote: &Vote) -> (r: ApiErr)
        ensures
            r.err@ == spec_rejection_message(why, vote@),
    {
        let err = match why {
            Rejection::AlreadyVoted => {
                let mut m = vote.addr.clone();
                m.append(" (");
                m.append(vote.category_slug.as_str());
                m.append(") Already voted.");
                m
            },
            Rejection::UnknownCandidate => {
                let mut m = "Vote candidate '".to_owned();
                m.append(vote.candidate_slug.as_str());
                m.append("' does not exist");
                m
            },
            Rejection::UnknownCategory => {
                let mut m = "Vote category '".to_owned();
                m.append(vote.category_slug.as_str());
                m.append("' does not exist");
                m
            },
            Rejection::VerificationUnavailable => "FAIL verify sig".to_owned(),
            Rejection::InvalidSignature => "Signature is not valid".to_owned(),
            Rejection::StorageFailure => "FAIL persist vote".to_owned(),
        };
        ApiErr { err }
    }

    /// The error object for a ballot that was rejected. Where the reason is a
    /// collaborator that failed, the oracle or the storage, what it reported
    /// follows the message; for every other reason `detail` is not used.
    pub fn describe(why: Rejection, vote: &Vote, detail: Option<&str>) -> (r: ApiErr)
        ensures
            r.err@ == spec_described(
                why,
                vote@,
                match detail {
                    Some(text) => Some(text@),
                    None => None,
                },
            ),
    {
        match (why, detail) {
            (Rejection::VerificationUnavailable, Some(text)) => ApiErr::from_rejection_detailed(
                why,
                vote,
                text,
            ),
            (Rejection::StorageFailure, Some(text)) => ApiErr::from_rejection_detailed(
                why,
                vote,
                text,
            ),
            _ => ApiErr::from_rejection(why, vote),
        }
    }

    /// The error object for a ballot that was rejected, with what the
    /// failing collaborator reported after the message.
    pub fn from_rejection_detailed(why: Rejection, vote: &Vote, detail: &str) -> (r: ApiErr)
        ensures
            r.err@ == spec_rejection_message(why, vote@) + ": "@ + detail@,
    {
        let mut e = ApiErr::from_rejection(why, vote);
        e.err.append(": ");
        e.err.append(detail);
        e
    }
}

} // verus!
