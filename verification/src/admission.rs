use vstd::prelude::*;
use crate::data::ApiData;
use crate::data::Candidate;
use crate::data::Category;
use crate::data::Vote;
use crate::data::VoteView;
use crate::data::VerifyError;
use crate::data::spec_has_candidate;
use crate::data::spec_has_category;
use crate::store::BallotStore;
use crate::store::StoreError;
use crate::store::spec_recorded;
use crate::store::spec_keys_unique;

verus! {

/// Why a ballot was not accepted.
#[derive(Debug, Clone, Copy, PartialEq, Eq, Structural)]
pub enum Rejection {
    AlreadyVoted,
    UnknownCandidate,
    UnknownCategory,
    VerificationUnavailable,
    InvalidSignature,
    StorageFailure,
}

/// Where the admission of one ballot stands. `Accepted` and `Rejected` are
/// final.
#[derive(Debug, Clone, Copy, PartialEq, Eq, Structural)]
pub enum Stage {
    DuplicateCheck,
    SignatureVerification,
    Persist,
    Accepted,
    Rejected(Rejection),
}

/// What the surrounding service has to do next for a ballot.
#[derive(Debug, Clone, Copy, PartialEq, Eq, Structural)]
pub enum Action {
    /// Ask the store whether the ballot's key is recorded.
    ProbeStore,
    /// Ask the signature oracle, once.
    AskOracle,
    /// Write the ballot, creating it only if its key is free.
    WriteBallot,
    /// Nothing: the admission has ended.
    Stop,
}

/// What the surrounding service reports back.
#[derive(Debug, Clone, Copy)]
pub enum Event {
    /// The store was probed: whether the ballot's key is recorded.
    KeyProbed(bool),
    /// The oracle was asked: its verdict, or why there is none.
    OracleReplied(Result<bool, VerifyError>),
    /// The write was attempted.
    PersistDone(Result<(), StoreError>),
}

/// The local conditions, in order: duplicate, candidate, category.
pub open spec fn spec_screen(
    recorded: bool,
    candidates: Seq<Candidate>,
    categories: Seq<Category>,
    v: VoteView,
) -> Stage {
    if recorded {
        Stage::Rejected(Rejection::AlreadyVoted)
    } else if !spec_has_candidate(candidates, v.candidate_slug) {
        Stage::Rejected(Rejection::UnknownCandidate)
    } else if !spec_has_category(categories, v.category_slug) {
        Stage::Rejected(Rejection::UnknownCategory)
    } else {
        Stage::SignatureVerification
    }
}

/// The decision on the oracle's reply.
pub open spec fn spec_judge_reply(reply: Result<bool, VerifyError>) -> Stage {
    match reply {
        Err(_) => Stage::Rejected(Rejection::VerificationUnavailable),
        Ok(false) => Stage::Rejected(Rejection::InvalidSignature),
        Ok(true) => Stage::Persist,
    }
}

/// The decision on the write: a taken key is a duplicate, any other failure means
/// the ballot did not count.
pub open spec fn spec_judge_write(outcome: Result<(), StoreError>) -> Stage {
    match outcome {
        Ok(_) => Stage::Accepted,
        Err(StoreError::KeyTaken) => Stage::Rejected(Rejection::AlreadyVoted),
        Err(StoreError::Unavailable) => Stage::Rejected(Rejection::StorageFailure),
    }
}

/// The stage that follows `stage` on `event`. An event that the stage did not
/// ask for leaves it unchanged, and so does any event on a final stage.
pub open spec fn spec_advance(
    stage: Stage,
    event: Event,
    candidates: Seq<Candidate>,
    categories: Seq<Category>,
    v: VoteView,
) -> Stage {
    match (stage, event) {
        (Stage::DuplicateCheck, Event::KeyProbed(recorded)) => spec_screen(
            recorded,
            candidates,
            categories,
            v,
        ),
        (Stage::SignatureVerification, Event::OracleReplied(reply)) => spec_judge_reply(reply),
        (Stage::Persist, Event::PersistDone(outcome)) => spec_judge_write(outcome),
        _ => stage,
    }
}

/// What a stage asks the surrounding service to do.
pub open spec fn spec_pending_action(stage: Stage) -> Action {
    match stage {
        Stage::DuplicateCheck => Action::ProbeStore,
        Stage::SignatureVerification => Action::AskOracle,
        Stage::Persist => Action::WriteBallot,
        Stage::Accepted => Action::Stop,
        Stage::Rejected(_) => Action::Stop,
    }
}

/// The outcome of a final stage; `None` while the admission is under way.
pub open spec fn spec_outcome(stage: Stage) -> Option<Result<(), Rejection>> {
    match stage {
        Stage::Accepted => Some(Ok(())),
        Stage::Rejected(why) => Some(Err(why)),
        _ => None,
    }
}

/// The stage reached from `stage` after the events, taken in order.
pub open spec fn spec_run(
    stage: Stage,
    events: Seq<Event>,
    candidates: Seq<Candidate>,
    categories: Seq<Category>,
    v: VoteView,
) -> Stage
    decreases events.len(),
{
    if events.len() == 0 {
        stage
    } else {
        spec_advance(
            spec_run(stage, events.drop_last(), candidates, categories, v),
            events.last(),
            candidates,
            categories,
            v,
        )
    }
}

/// The result of admitting a ballot to a store that holds `ballots`, when the
/// oracle, if asked, replies `reply`.
pub open spec fn spec_verdict(
    ballots: Seq<VoteView>,
    candidates: Seq<Candidate>,
    categories: Seq<Category>,
    v: VoteView,
    reply: Result<bool, VerifyError>,
) -> Result<(), Rejection> {
    if spec_recorded(ballots, v.addr, v.category_slug) {
        Err(Rejection::AlreadyVoted)
    } else if !spec_has_candidate(candidates, v.candidate_slug) {
        Err(Rejection::UnknownCandidate)
    } else if !spec_has_category(categories, v.category_slug) {
        Err(Rejection::UnknownCategory)
    } else {
        match reply {
            Err(_) => Err(Rejection::VerificationUnavailable),
            Ok(false) => Err(Rejection::InvalidSignature),
            Ok(true) => Ok(()),
        }
    }
}

/// The store's ballots after an admission: one more on acceptance, the same
/// otherwise.
pub open spec fn spec_store_after(
    ballots: Seq<VoteView>,
    candidates: Seq<Candidate>,
    categories: Seq<Category>,
    v: VoteView,
    reply: Result<bool, VerifyError>,
) -> Seq<VoteView> {
    if spec_verdict(ballots, candidates, categories, v, reply) is Ok {
        ballots.push(v)
    } else {
        ballots
    }
}

/// The store's ballots after a series of admissions, each a ballot with the
/// reply that the oracle gives for it, taken one after the other.
pub open spec fn spec_store_after_all(
    ballots: Seq<VoteView>,
    candidates: Seq<Candidate>,
    categories: Seq<Category>,
    submissions: Seq<(VoteView, Result<bool, VerifyError>)>,
) -> Seq<VoteView>
    decreases submissions.len(),
{
    if submissions.len() == 0 {
        ballots
    } else {
        spec_store_after(
            spec_store_after_all(ballots, candidates, categories, submissions.drop_last()),
            candidates,
            categories,
            submissions.last().0,
            submissions.last().1,
        )
    }
}

/// The stage at which every admission starts.
pub fn begin() -> (r: Stage)
    ensures
        r == Stage::DuplicateCheck,
{
    Stage::DuplicateCheck
}

/// What `stage` asks the surrounding service to do next.
pub fn pending_action(stage: Stage) -> (r: Action)
    ensures
        r == spec_pending_action(stage),
{
    match stage {
        Stage::DuplicateCheck => Action::ProbeStore,
        Stage::SignatureVerification => Action::AskOracle,
        Stage::Persist => Action::WriteBallot,
        Stage::Accepted => Action::Stop,
        Stage::Rejected(_) => Action::Stop,
    }
}

/// The outcome of a final stage; `None` while the admission is under way.
pub fn outcome(stage: Stage) -> (r: Option<Result<(), Rejection>>)
    ensures
        r == spec_outcome(stage),
{
    match stage {
        Stage::Accepted => Some(Ok(())),
        Stage::Rejected(why) => Some(Err(why)),
        _ => None,
    }
}

/// Moves the admission of `vote` from `stage` on `event`. No step has a side
/// effect: the only durable change of an admission is the write that the
/// `Persist` stage asks for.
pub fn advance(stage: Stage, event: Event, data: &ApiData, vote: &Vote) -> (next: Stage)
    ensures
        next == spec_advance(stage, event, data.candidates@, data.categories@, vote@),
{
    match (stage, event) {
        (Stage::DuplicateCheck, Event::KeyProbed(recorded)) => {
            if recorded {
                Stage::Rejected(Rejection::AlreadyVoted)
            } else if !data.has_candidate(vote.candidate_slug.as_str()) {
                Stage::Rejected(Rejection::UnknownCandidate)
            } else if !data.has_category(vote.category_slug.as_str()) {
                Stage::Rejected(Rejection::UnknownCategory)
            } else {
                Stage::SignatureVerification
            }
        },
        (Stage::SignatureVerification, Event::OracleReplied(reply)) => {
            match reply {
                Err(_) => Stage::Rejected(Rejection::VerificationUnavailable),
                Ok(false) => Stage::Rejected(Rejection::InvalidSignature),
                Ok(true) => Stage::Persist,
            }
        },
        (Stage::Persist, Event::PersistDone(outcome)) => {
            match outcome {
                Ok(_) => Stage::Accepted,
                Err(StoreError::KeyTaken) => Stage::Rejected(Rejection::AlreadyVoted),
                Err(StoreError::Unavailable) => Stage::Rejected(Rejection::StorageFailure),
            }
        },
        _ => stage,
    }
}

/// Admits `vote` to `store`, given the reply that the oracle gives if it is
/// asked. The reply is looked at only once the local conditions hold, and
/// the store changes only on acceptance, by exactly this ballot
/// (`spec_store_after`).
pub fn admit_with_reply(
    store: &mut BallotStore,
    data: &ApiData,
    vote: Vote,
    reply: Result<bool, VerifyError>,
) -> (r: Result<(), Rejection>)
    requires
        old(store).wf(),
    ensures
        final(store).wf(),
        r == spec_verdict(old(store)@, data.candidates@, data.categories@, vote@, reply),
        final(store)@ == spec_store_after(
            old(store)@,
            data.candidates@,
            data.categories@,
            vote@,
            reply,
        ),
{
    let mut stage = begin();
    let recorded = store.vote_exist(&vote);
    stage = advance(stage, Event::KeyProbed(recorded), data, &vote);
    if let Action::AskOracle = pending_action(stage) {
        stage = advance(stage, Event::OracleReplied(reply), data, &vote);
    }
    if let Action::WriteBallot = pending_action(stage) {
        let kept = vote.clone();
        let written = store.persist_vote(vote);
        stage = advance(stage, Event::PersistDone(written), data, &kept);
    }
    match stage {
        Stage::Accepted => Ok(()),
        Stage::Rejected(why) => Err(why),
        _ => vstd::pervasive::unreached(),
    }
}

/// An admission leaves at most one ballot under each address and category.
pub proof fn lemma_admission_keeps_keys_unique(
    ballots: Seq<VoteView>,
    candidates: Seq<Candidate>,
    categories: Seq<Category>,
    v: VoteView,
    reply: Result<bool, VerifyError>,
)
    requires
        spec_keys_unique(ballots),
    ensures
        spec_keys_unique(spec_store_after(ballots, candidates, categories, v, reply)),
{
    let after = spec_store_after(ballots, candidates, categories, v, reply);
    if spec_verdict(ballots, candidates, categories, v, reply) is Ok {
        assert forall|i: int, j: int| 0 <= i < j < after.len() implies !((#[trigger] after[i]).addr
            == (#[trigger] after[j]).addr && after[i].category_slug == after[j].category_slug) by {
            assert(after[i] == ballots[i]);
            if j < ballots.len() {
                assert(after[j] == ballots[j]);
            }
        }
    }
}

/// However many ballots are submitted one after the other, and whatever the
/// oracle replies, the store holds at most one ballot under each address and
/// category.
pub proof fn lemma_submissions_keep_keys_unique(
    ballots: Seq<VoteView>,
    candidates: Seq<Candidate>,
    categories: Seq<Category>,
    submissions: Seq<(VoteView, Result<bool, VerifyError>)>,
)
    requires
        spec_keys_unique(ballots),
    ensures
        spec_keys_unique(spec_store_after_all(ballots, candidates, categories, submissions)),
    decreases submissions.len(),
{
    if submissions.len() > 0 {
        lemma_submissions_keep_keys_unique(
            ballots,
            candidates,
            categories,
            submissions.drop_last(),
        );
        lemma_admission_keeps_keys_unique(
            spec_store_after_all(ballots, candidates, categories, submissions.drop_last()),
            candidates,
            categories,
            submissions.last().0,
            submissions.last().1,
        );
    }
}

/// A ballot is refused as already voted exactly where its key is recorded,
/// whatever the catalogs hold and whatever the oracle would reply; the store
/// is then left as it was.
pub proof fn lemma_reused_key_is_already_voted(
    ballots: Seq<VoteView>,
    candidates: Seq<Candidate>,
    categories: Seq<Category>,
    v: VoteView,
    reply: Result<bool, VerifyError>,
)
    ensures
        spec_recorded(ballots, v.addr, v.category_slug) <==> spec_verdict(
            ballots,
            candidates,
            categories,
            v,
            reply,
        ) == Err::<(), Rejection>(Rejection::AlreadyVoted),
        spec_recorded(ballots, v.addr, v.category_slug) ==> spec_store_after(
            ballots,
            candidates,
            categories,
            v,
            reply,
        ) == ballots,
{
}

/// A ballot whose key is free and whose candidate is absent from the catalog
/// is rejected for the unknown candidate, whatever the oracle would reply, and
/// leaves no record.
pub proof fn lemma_unknown_candidate_is_rejected(
    ballots: Seq<VoteView>,
    candidates: Seq<Candidate>,
    categories: Seq<Category>,
    v: VoteView,
    reply: Result<bool, VerifyError>,
)
    requires
        !spec_recorded(ballots, v.addr, v.category_slug),
        !spec_has_candidate(candidates, v.candidate_slug),
    ensures
        spec_verdict(ballots, candidates, categories, v, reply) == Err::<(), Rejection>(
            Rejection::UnknownCandidate,
        ),
        spec_store_after(ballots, candidates, categories, v, reply) == ballots,
{
}

/// A ballot that meets every local condition and whose signature the oracle
/// denies is rejected for its signature and leaves no record.
pub proof fn lemma_denied_signature_leaves_no_record(
    ballots: Seq<VoteView>,
    candidates: Seq<Candidate>,
    categories: Seq<Category>,
    v: VoteView,
)
    requires
        !spec_recorded(ballots, v.addr, v.category_slug),
        spec_has_candidate(candidates, v.candidate_slug),
        spec_has_category(categories, v.category_slug),
    ensures
        spec_verdict(ballots, candidates, categories, v, Ok(false)) == Err::<(), Rejection>(
            Rejection::InvalidSignature,
        ),
        spec_store_after(ballots, candidates, categories, v, Ok(false)) == ballots,
        !spec_recorded(
            spec_store_after(ballots, candidates, categories, v, Ok(false)),
            v.addr,
            v.category_slug,
        ),
{
}

/// Whether `event` is a probe of the store after which the oracle is asked.
pub open spec fn spec_clears_for_oracle(
    event: Event,
    candidates: Seq<Candidate>,
    categories: Seq<Category>,
    v: VoteView,
) -> bool {
    match event {
        Event::KeyProbed(recorded) => spec_screen(recorded, candidates, categories, v)
            == Stage::SignatureVerification,
        _ => false,
    }
}

/// While no probe clears the ballot for the oracle, an admission that starts
/// at the duplicate check stays there or ends rejected.
pub proof fn lemma_run_without_clearance(
    events: Seq<Event>,
    candidates: Seq<Candidate>,
    categories: Seq<Category>,
    v: VoteView,
)
    requires
        forall|k: int|
            0 <= k < events.len() ==> !spec_clears_for_oracle(
                #[trigger] events[k],
                candidates,
                categories,
                v,
            ),
    ensures
        ({
            let end = spec_run(Stage::DuplicateCheck, events, candidates, categories, v);
            end == Stage::DuplicateCheck || end is Rejected
        }),
    decreases events.len(),
{
    if events.len() > 0 {
        let front = events.drop_last();
        assert forall|k: int| 0 <= k < front.len() implies !spec_clears_for_oracle(
            #[trigger] front[k],
            candidates,
            categories,
            v,
        ) by {
            assert(front[k] == events[k]);
        }
        lemma_run_without_clearance(front, candidates, categories, v);
        assert(!spec_clears_for_oracle(events[events.len() - 1], candidates, categories, v));
    }
}

/// A ballot that names a candidate absent from the catalog never reaches the
/// oracle or the store's write, whatever is reported back, and where the
/// store reports its key free it is rejected for the unknown candidate.
pub proof fn lemma_unknown_candidate_never_asks_oracle(
    events: Seq<Event>,
    candidates: Seq<Candidate>,
    categories: Seq<Category>,
    v: VoteView,
)
    requires
        !spec_has_candidate(candidates, v.candidate_slug),
    ensures
        ({
            let end = spec_run(Stage::DuplicateCheck, events, candidates, categories, v);
            &&& spec_pending_action(end) != Action::AskOracle
            &&& spec_pending_action(end) != Action::WriteBallot
            &&& end != Stage::Accepted
        }),
        spec_advance(Stage::DuplicateCheck, Event::KeyProbed(false), candidates, categories, v)
            == Stage::Rejected(Rejection::UnknownCandidate),
{
    lemma_run_without_clearance(events, candidates, categories, v);
}

/// A ballot whose key the store reports as recorded is rejected as already
/// voted, and its admission never reaches the oracle or the store's write.
pub proof fn lemma_recorded_key_never_asks_oracle(
    events: Seq<Event>,
    candidates: Seq<Candidate>,
    categories: Seq<Category>,
    v: VoteView,
)
    requires
        forall|k: int| 0 <= k < events.len() ==> #[trigger] events[k] != Event::KeyProbed(false),
    ensures
        ({
            let end = spec_run(Stage::DuplicateCheck, events, candidates, categories, v);
            &&& spec_pending_action(end) != Action::AskOracle
            &&& spec_pending_action(end) != Action::WriteBallot
            &&& end != Stage::Accepted
        }),
        spec_advance(Stage::DuplicateCheck, Event::KeyProbed(true), candidates, categories, v)
            == Stage::Rejected(Rejection::AlreadyVoted),
{
    lemma_run_without_clearance(events, candidates, categories, v);
}

/// Driving the stages with the store's answer, the oracle's reply and a
/// write that succeeds ends with the verdict.
pub proof fn lemma_run_ends_with_verdict(
    ballots: Seq<VoteView>,
    candidates: Seq<Candidate>,
    categories: Seq<Category>,
    v: VoteView,
    reply: Result<bool, VerifyError>,
)
    ensures
        spec_outcome(
            spec_run(
                Stage::DuplicateCheck,
                seq![
                    Event::KeyProbed(spec_recorded(ballots, v.addr, v.category_slug)),
                    Event::OracleReplied(reply),
                    Event::PersistDone(Ok(())),
                ],
                candidates,
                categories,
                v,
            ),
        ) == Some(spec_verdict(ballots, candidates, categories, v, reply)),
{
    let e0 = Event::KeyProbed(spec_recorded(ballots, v.addr, v.category_slug));
    let e1 = Event::OracleReplied(reply);
    let e2 = Event::PersistDone(Ok(()));
    let all = seq![e0, e1, e2];
    assert(all.drop_last() =~= seq![e0, e1]);
    assert(seq![e0, e1].drop_last() =~= seq![e0]);
    assert(seq![e0].drop_last() =~= Seq::<Event>::empty());
    reveal_with_fuel(spec_run, 4);
    let s1 = spec_run(Stage::DuplicateCheck, seq![e0], candidates, categories, v);
    assert(s1 == spec_advance(Stage::DuplicateCheck, e0, candidates, categories, v));
    let s2 = spec_run(Stage::DuplicateCheck, seq![e0, e1], candidates, categories, v);
    assert(s2 == spec_advance(s1, e1, candidates, categories, v));
    let s3 = spec_run(Stage::DuplicateCheck, all, candidates, categories, v);
    assert(s3 == spec_advance(s2, e2, candidates, categories, v));
}

/// A final stage absorbs every event.
pub proof fn lemma_final_stage_absorbs(
    stage: Stage,
    event: Event,
    candidates: Seq<Candidate>,
    categories: Seq<Category>,
    v: VoteView,
)
    requires
        spec_pending_action(stage) == Action::Stop,
    ensures
        spec_advance(stage, event, candidates, categories, v) == stage,
{
}

} // verus!
