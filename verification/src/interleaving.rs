use vstd::prelude::*;
use crate::admission::Action;
use crate::admission::Event;
use crate::admission::Rejection;
use crate::admission::Stage;
use crate::admission::spec_advance;
use crate::admission::spec_pending_action;
use crate::data::Candidate;
use crate::data::Category;
use crate::data::VerifyError;
use crate::data::VoteView;
use crate::store::StoreError;
use crate::store::spec_keys_unique;
use crate::store::spec_recorded;
use crate::store::lemma_persist_then_exists;
use crate::store::lemma_recorded_stays;

verus! {

/// A service that admits several ballots at once: the ballots recorded so
/// far, and for each submission the stage at which its admission stands.
pub ghost struct Service {
    pub ballots: Seq<VoteView>,
    pub stages: Seq<Stage>,
}

/// One turn of the scheduler: the submission whose pending action is carried
/// out, the oracle's reply if that action asks the oracle, and whether the
/// storage fails if that action writes.
pub ghost struct Turn {
    pub who: int,
    pub reply: Result<bool, VerifyError>,
    pub write_fails: bool,
}

/// Whether two ballots have the same address and category.
pub open spec fn spec_same_key(a: VoteView, b: VoteView) -> bool {
    a.addr == b.addr && a.category_slug == b.category_slug
}

/// What the write of `v` reports on a store that holds `ballots`: the key is
/// tested and the ballot created in one indivisible step.
pub open spec fn spec_write_outcome(ballots: Seq<VoteView>, v: VoteView, write_fails: bool) -> Result<
    (),
    StoreError,
> {
    if spec_recorded(ballots, v.addr, v.category_slug) {
        Err(StoreError::KeyTaken)
    } else if write_fails {
        Err(StoreError::Unavailable)
    } else {
        Ok(())
    }
}

/// The service after one turn. Each turn carries out the pending action of one
/// submission against the store as it stands at that moment; a turn for a
/// submission that does not exist, or whose admission has ended, changes
/// nothing.
pub open spec fn spec_turn(
    s: Service,
    submissions: Seq<VoteView>,
    t: Turn,
    candidates: Seq<Candidate>,
    categories: Seq<Category>,
) -> Service {
    if 0 <= t.who < s.stages.len() && s.stages.len() == submissions.len() {
        let v = submissions[t.who];
        let stage = s.stages[t.who];
        match spec_pending_action(stage) {
            Action::ProbeStore => Service {
                ballots: s.ballots,
                stages: s.stages.update(
                    t.who,
                    spec_advance(
                        stage,
                        Event::KeyProbed(spec_recorded(s.ballots, v.addr, v.category_slug)),
                        candidates,
                        categories,
                        v,
                    ),
                ),
            },
            Action::AskOracle => Service {
                ballots: s.ballots,
                stages: s.stages.update(
                    t.who,
                    spec_advance(stage, Event::OracleReplied(t.reply), candidates, categories, v),
                ),
            },
            Action::WriteBallot => {
                let outcome = spec_write_outcome(s.ballots, v, t.write_fails);
                Service {
                    ballots: if outcome is Ok {
                        s.ballots.push(v)
                    } else {
                        s.ballots
                    },
                    stages: s.stages.update(
                        t.who,
                        spec_advance(stage, Event::PersistDone(outcome), candidates, categories, v),
                    ),
                }
            },
            Action::Stop => s,
        }
    } else {
        s
    }
}

/// The service after the turns, taken in order.
pub open spec fn spec_turns(
    s: Service,
    submissions: Seq<VoteView>,
    turns: Seq<Turn>,
    candidates: Seq<Candidate>,
    categories: Seq<Category>,
) -> Service
    decreases turns.len(),
{
    if turns.len() == 0 {
        s
    } else {
        spec_turn(
            spec_turns(s, submissions, turns.drop_last(), candidates, categories),
            submissions,
            turns.last(),
            candidates,
            categories,
        )
    }
}

/// Whether the admission has ended with the ballot accepted or refused as
/// already voted.
pub open spec fn spec_settled_by_key(stage: Stage) -> bool {
    stage == Stage::Accepted || stage == Stage::Rejected(Rejection::AlreadyVoted)
}

/// What holds of a service at every moment: the store has at most one ballot
/// per key, the key of every submission that was accepted or refused as
/// already voted is recorded, and no two accepted submissions share a key.
pub open spec fn spec_service_sound(s: Service, submissions: Seq<VoteView>) -> bool {
    &&& s.stages.len() == submissions.len()
    &&& spec_keys_unique(s.ballots)
    &&& forall|k: int|
        0 <= k < s.stages.len() && spec_settled_by_key(#[trigger] s.stages[k]) ==> spec_recorded(
            s.ballots,
            submissions[k].addr,
            submissions[k].category_slug,
        )
    &&& forall|i: int, j: int|
        0 <= i < j < s.stages.len() && #[trigger] s.stages[i] == Stage::Accepted
            && #[trigger] s.stages[j] == Stage::Accepted ==> !spec_same_key(
            submissions[i],
            submissions[j],
        )
}

/// A turn keeps a sound service sound.
pub proof fn lemma_turn_keeps_sound(
    s: Service,
    submissions: Seq<VoteView>,
    t: Turn,
    candidates: Seq<Candidate>,
    categories: Seq<Category>,
)
    requires
        spec_service_sound(s, submissions),
    ensures
        spec_service_sound(spec_turn(s, submissions, t, candidates, categories), submissions),
{
    let n = spec_turn(s, submissions, t, candidates, categories);
    if 0 <= t.who < s.stages.len() {
        let v = submissions[t.who];
        let stage = s.stages[t.who];
        let wrote = spec_pending_action(stage) == Action::WriteBallot && spec_write_outcome(
            s.ballots,
            v,
            t.write_fails,
        ) is Ok;
        assert forall|k: int| 0 <= k < n.stages.len() && k != t.who implies n.stages[k]
            == s.stages[k] by {}
        assert(n.stages[t.who] == Stage::Accepted ==> wrote || stage == Stage::Accepted);
        if wrote {
            assert(n.ballots == s.ballots.push(v));
            lemma_persist_then_exists(s.ballots, v);
            assert forall|i: int, j: int| 0 <= i < j < n.ballots.len() implies !((
            #[trigger] n.ballots[i]).addr == (#[trigger] n.ballots[j]).addr
                && n.ballots[i].category_slug == n.ballots[j].category_slug) by {
                assert(n.ballots[i] == s.ballots[i]);
                if j < s.ballots.len() {
                    assert(n.ballots[j] == s.ballots[j]);
                }
            }
            assert forall|k: int|
                0 <= k < n.stages.len() && spec_settled_by_key(
                    #[trigger] n.stages[k],
                ) implies spec_recorded(
                n.ballots,
                submissions[k].addr,
                submissions[k].category_slug,
            ) by {
                if k != t.who {
                    assert(spec_settled_by_key(s.stages[k]));
                    lemma_recorded_stays(
                        s.ballots,
                        v,
                        submissions[k].addr,
                        submissions[k].category_slug,
                    );
                }
            }
            assert forall|i: int, j: int|
                0 <= i < j < n.stages.len() && #[trigger] n.stages[i] == Stage::Accepted
                    && #[trigger] n.stages[j] == Stage::Accepted implies !spec_same_key(
                submissions[i],
                submissions[j],
            ) by {
                if i != t.who && j != t.who {
                    assert(s.stages[i] == Stage::Accepted);
                    assert(s.stages[j] == Stage::Accepted);
                } else if i == t.who {
                    assert(spec_settled_by_key(s.stages[j]));
                } else {
                    assert(spec_settled_by_key(s.stages[i]));
                }
            }
        } else {
            assert(n.ballots == s.ballots);
            assert forall|k: int|
                0 <= k < n.stages.len() && spec_settled_by_key(
                    #[trigger] n.stages[k],
                ) implies spec_recorded(
                n.ballots,
                submissions[k].addr,
                submissions[k].category_slug,
            ) by {
                if k != t.who {
                    assert(spec_settled_by_key(s.stages[k]));
                } else if spec_settled_by_key(stage) {
                    assert(n.stages[k] == stage);
                }
            }
            assert forall|i: int, j: int|
                0 <= i < j < n.stages.len() && #[trigger] n.stages[i] == Stage::Accepted
                    && #[trigger] n.stages[j] == Stage::Accepted implies !spec_same_key(
                submissions[i],
                submissions[j],
            ) by {
                assert(s.stages[i] == Stage::Accepted);
                assert(s.stages[j] == Stage::Accepted);
            }
        }
    }
}

/// However the admissions of several ballots are interleaved, whatever the
/// oracle replies and whenever the storage fails, the store keeps at most one
/// ballot per address and category, and of the submissions that share an
/// address and a category at most one is accepted.
pub proof fn lemma_one_accepted_ballot_per_key(
    s: Service,
    submissions: Seq<VoteView>,
    turns: Seq<Turn>,
    candidates: Seq<Candidate>,
    categories: Seq<Category>,
)
    requires
        spec_service_sound(s, submissions),
    ensures
        spec_service_sound(spec_turns(s, submissions, turns, candidates, categories), submissions),
    decreases turns.len(),
{
    if turns.len() > 0 {
        lemma_one_accepted_ballot_per_key(
            s,
            submissions,
            turns.drop_last(),
            candidates,
            categories,
        );
        lemma_turn_keeps_sound(
            spec_turns(s, submissions, turns.drop_last(), candidates, categories),
            submissions,
            turns.last(),
            candidates,
            categories,
        );
    }
}

/// A write that the storage does not fail settles the ballot's key: the
/// submission is accepted where the key was free, and refused as already
/// voted where it was taken, and the key is recorded afterwards. So of the
/// submissions of one key that reach the write, the first is accepted and
/// every later one ends as already voted.
pub proof fn lemma_write_settles_key(
    s: Service,
    submissions: Seq<VoteView>,
    t: Turn,
    candidates: Seq<Candidate>,
    categories: Seq<Category>,
)
    requires
        spec_service_sound(s, submissions),
        0 <= t.who < s.stages.len(),
        s.stages[t.who] == Stage::Persist,
        !t.write_fails,
    ensures
        ({
            let v = submissions[t.who];
            let n = spec_turn(s, submissions, t, candidates, categories);
            &&& spec_recorded(n.ballots, v.addr, v.category_slug)
            &&& n.stages[t.who] == if spec_recorded(s.ballots, v.addr, v.category_slug) {
                Stage::Rejected(Rejection::AlreadyVoted)
            } else {
                Stage::Accepted
            }
        }),
{
    let v = submissions[t.who];
    if !spec_recorded(s.ballots, v.addr, v.category_slug) {
        lemma_persist_then_exists(s.ballots, v);
    }
}

/// A service that starts with an empty store and every admission at its
/// first stage is sound.
pub proof fn lemma_fresh_service_sound(submissions: Seq<VoteView>)
    ensures
        spec_service_sound(
            Service {
                ballots: Seq::<VoteView>::empty(),
                stages: Seq::new(submissions.len(), |k: int| Stage::DuplicateCheck),
            },
            submissions,
        ),
{
}

} // verus!
