use vstd::prelude::*;
use crate::data::Vote;
use crate::data::VoteView;
use crate::data::vote_views;
use crate::data::spec_by_address;
use crate::data::select_by_address;
use crate::text::text_eq;

verus! {

/// Why a ballot was not written.
#[derive(Debug, Clone, Copy, PartialEq, Eq, Structural)]
pub enum StoreError {
    /// A ballot is already recorded under the same address and category.
    KeyTaken,
    /// The backing storage failed.
    Unavailable,
}

/// Whether a ballot of `addr` in `category` is among `ballots`.
pub open spec fn spec_recorded(ballots: Seq<VoteView>, addr: Seq<char>, category: Seq<char>) -> bool {
    exists|i: int|
        0 <= i < ballots.len() && (#[trigger] ballots[i]).addr == addr && ballots[i].category_slug
            == category
}

/// No two ballots share an address and a category.
pub open spec fn spec_keys_unique(ballots: Seq<VoteView>) -> bool {
    forall|i: int, j: int|
        0 <= i < j < ballots.len() ==> !((#[trigger] ballots[i]).addr == (#[trigger] ballots[j]).addr
            && ballots[i].category_slug == ballots[j].category_slug)
}

/// A store of accepted ballots keyed by address and category. A ballot is
/// written only where its key is free, and is never changed or removed.
pub struct BallotStore {
    ballots: Vec<Vote>,
}

impl View for BallotStore {
    type V = Seq<VoteView>;

    closed spec fn view(&self) -> Seq<VoteView> {
        vote_views(self.ballots@)
    }
}

impl BallotStore {
    /// The store's invariant: at most one ballot per address and category.
    pub open spec fn wf(&self) -> bool {
        spec_keys_unique(self@)
    }

    /// A store that holds no ballot.
    pub fn new() -> (r: Self)
        ensures
            r.wf(),
            r@ == Seq::<VoteView>::empty(),
    {
        let r = BallotStore { ballots: Vec::new() };
        assert(r@ =~= Seq::<VoteView>::empty());
        r
    }

    /// How many ballots are recorded.
    pub fn len(&self) -> (r: usize)
        ensures
            r == self@.len(),
    {
        self.ballots.len()
    }

    /// Whether a ballot is recorded under the address and category of `vote`.
    pub fn vote_exist(&self, vote: &Vote) -> (r: bool)
        ensures
            r == spec_recorded(self@, vote@.addr, vote@.category_slug),
    {
        let mut i: usize = 0;
        while i < self.ballots.len()
            invariant
                i <= self.ballots.len(),
                self@ == vote_views(self.ballots@),
                forall|k: int|
                    0 <= k < i ==> !((#[trigger] self@[k]).addr == vote@.addr
                        && self@[k].category_slug == vote@.category_slug),
            decreases self.ballots.len() - i,
        {
            if text_eq(self.ballots[i].addr.as_str(), vote.addr.as_str()) && text_eq(
                self.ballots[i].category_slug.as_str(),
                vote.category_slug.as_str(),
            ) {
                assert(self@[i as int] == self.ballots@[i as int]@);
                return true;
            }
            assert(self@[i as int] == self.ballots@[i as int]@);
            i += 1;
        }
        false
    }

    /// The recorded ballots of `addr`, in the order in which they were written.
    pub fn get_addr_votes(&self, addr: &str) -> (r: Vec<Vote>)
        ensures
            vote_views(r@) == spec_by_address(self@, addr@),
    {
        select_by_address(&self.ballots, addr)
    }

    /// Writes `vote` if no ballot is recorded under its key, and refuses it
    /// otherwise: the write itself is the authoritative duplicate check.
    pub fn persist_vote(&mut self, vote: Vote) -> (r: Result<(), StoreError>)
        requires
            old(self).wf(),
        ensures
            final(self).wf(),
            spec_recorded(final(self)@, vote@.addr, vote@.category_slug),
            r is Ok <==> !spec_recorded(old(self)@, vote@.addr, vote@.category_slug),
            r is Ok ==> final(self)@ == old(self)@.push(vote@),
            r is Err ==> r == Err::<(), StoreError>(StoreError::KeyTaken) && final(self)@ == old(
                self,
            )@,
    {
        if self.vote_exist(&vote) {
            return Err(StoreError::KeyTaken);
        }
        let ghost before = self@;
        let ghost v = vote@;
        self.ballots.push(vote);
        assert(self@ =~= before.push(v));
        proof {
            lemma_persist_then_exists(before, v);
        }
        Ok(())
    }
}

/// After a ballot was written, a ballot is recorded under its key.
pub proof fn lemma_persist_then_exists(before: Seq<VoteView>, v: VoteView)
    ensures
        spec_recorded(before.push(v), v.addr, v.category_slug),
{
    assert(before.push(v)[before.len() as int] == v);
}

/// What was recorded stays recorded when another ballot is written.
pub proof fn lemma_recorded_stays(before: Seq<VoteView>, v: VoteView, addr: Seq<char>, category: Seq<char>)
    requires
        spec_recorded(before, addr, category),
    ensures
        spec_recorded(before.push(v), addr, category),
{
    let i = choose|i: int|
        0 <= i < before.len() && (#[trigger] before[i]).addr == addr && before[i].category_slug
            == category;
    assert(before.push(v)[i] == before[i]);
}

/// In a well-formed store, two recorded ballots with the same address and
/// category are one and the same entry.
pub proof fn lemma_one_ballot_per_key(store: BallotStore, i: int, j: int)
    requires
        store.wf(),
        0 <= i < store@.len(),
        0 <= j < store@.len(),
        store@[i].addr == store@[j].addr,
        store@[i].category_slug == store@[j].category_slug,
    ensures
        i == j,
{
}

/// The listing of an address holds exactly the recorded ballots that carry
/// that address, whatever other addresses are present.
pub proof fn lemma_listing_exact(ballots: Seq<VoteView>, addr: Seq<char>)
    ensures
        spec_by_address(ballots, addr).to_set() == Set::new(
            |v: VoteView| ballots.contains(v) && v.addr == addr,
        ),
{
    let pred = |v: VoteView| v.addr == addr;
    let listed = ballots.filter(pred);
    assert forall|v: VoteView| listed.contains(v) implies ballots.contains(v) && v.addr == addr by {
        ballots.lemma_filter_contains_rev(pred, v);
        let k = choose|k: int| 0 <= k < listed.len() && listed[k] == v;
        ballots.lemma_filter_pred(pred, k);
    }
    assert forall|v: VoteView| ballots.contains(v) && v.addr == addr implies listed.contains(v) by {
        let k = choose|k: int| 0 <= k < ballots.len() && ballots[k] == v;
        ballots.lemma_filter_contains(pred, k);
    }
    assert(listed.to_set() =~= Set::new(|v: VoteView| ballots.contains(v) && v.addr == addr));
}

/// The listing of an address, taken as a set, does not depend on the order in
/// which the ballots were written.
pub proof fn lemma_listing_ignores_order(first: Seq<VoteView>, second: Seq<VoteView>, addr: Seq<char>)
    requires
        first.to_set() == second.to_set(),
    ensures
        spec_by_address(first, addr).to_set() == spec_by_address(second, addr).to_set(),
{
    lemma_listing_exact(first, addr);
    lemma_listing_exact(second, addr);
    assert forall|v: VoteView| #[trigger] first.contains(v) == second.contains(v) by {
        assert(first.to_set().contains(v) == first.contains(v));
        assert(second.to_set().contains(v) == second.contains(v));
    }
    assert(spec_by_address(first, addr).to_set() =~= spec_by_address(second, addr).to_set());
}

} // verus!
