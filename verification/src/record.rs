//! What the table keeps about one candidate.

use std::collections::hash_map::Entry;
use std::collections::HashMap;
use vstd::prelude::*;
use vstd::std_specs::iter::IteratorSpec;
use crate::context::Context;
use crate::misbehavior::ValidityDoubleVote;
use crate::plain::{duplicate, plain};

verus! {

/// Kinds of votes for validity.
#[derive(PartialEq, Eq, Debug)]
pub enum ValidityVote<S> {
    /// Implicit validity vote by issuing.
    Issued(S),
    /// Direct validity vote.
    Valid(S),
    /// Direct invalidity vote.
    Invalid(S),
}

/// The contents of a [`CandidateData`].
pub struct RecordView<C: Context> {
    /// The group the candidate is meant for.
    pub group_id: C::GroupId,
    /// The candidate.
    pub candidate: C::Candidate,
    /// The vote on validity that each validator was first heard to cast.
    pub validity_votes: Map<C::ValidatorId, ValidityVote<C::Signature>>,
    /// The signature under each validator's latest vote for availability.
    pub availability_votes: Map<C::ValidatorId, C::Signature>,
    /// The validators who called the candidate invalid, in the order in
    /// which they did.
    pub indicated_bad_by: Seq<C::ValidatorId>,
}

impl<C: Context> RecordView<C> {
    /// The record of a candidate nobody has voted on.
    pub open spec fn fresh(group_id: C::GroupId, candidate: C::Candidate) -> Self {
        RecordView {
            group_id,
            candidate,
            validity_votes: Map::empty(),
            availability_votes: Map::empty(),
            indicated_bad_by: Seq::empty(),
        }
    }

    /// The list of accusers names, once each, the validators whose vote on
    /// validity is a vote against; and the votes can be counted.
    pub open spec fn wf(self) -> bool {
        &&& self.validity_votes.dom().finite()
        &&& self.availability_votes.dom().finite()
        &&& self.indicated_bad_by.no_duplicates()
        &&& forall|v: C::ValidatorId|
            self.indicated_bad_by.contains(v) <==> (#[trigger] self.validity_votes.contains_key(v)
                && self.validity_votes[v] is Invalid)
    }

    /// What two votes of one validator on this candidate prove against the
    /// validator: nothing if they are of one kind, else the pair of them,
    /// whichever came first.
    pub open spec fn double_vote(
        self,
        digest: C::Digest,
        first: ValidityVote<C::Signature>,
        second: ValidityVote<C::Signature>,
    ) -> Option<ValidityDoubleVote<C>> {
        match (first, second) {
            (ValidityVote::Issued(issued), ValidityVote::Valid(good))
            | (ValidityVote::Valid(good), ValidityVote::Issued(issued)) => Some(
                ValidityDoubleVote::IssuedAndValidity((self.candidate, issued), (digest, good)),
            ),
            (ValidityVote::Issued(issued), ValidityVote::Invalid(bad))
            | (ValidityVote::Invalid(bad), ValidityVote::Issued(issued)) => Some(
                ValidityDoubleVote::IssuedAndInvalidity((self.candidate, issued), (digest, bad)),
            ),
            (ValidityVote::Valid(good), ValidityVote::Invalid(bad))
            | (ValidityVote::Invalid(bad), ValidityVote::Valid(good)) => Some(
                ValidityDoubleVote::ValidityAndInvalidity(digest, good, bad),
            ),
            _ => None,
        }
    }

    /// The record after a validator's first vote on validity.
    pub open spec fn with_validity_vote(
        self,
        from: C::ValidatorId,
        vote: ValidityVote<C::Signature>,
    ) -> Self {
        RecordView {
            validity_votes: self.validity_votes.insert(from, vote),
            indicated_bad_by: if vote is Invalid {
                self.indicated_bad_by.push(from)
            } else {
                self.indicated_bad_by
            },
            ..self
        }
    }

    /// A vote on validity arrives from a validator entitled to cast it.
    ///
    /// The first vote of a validator is kept. A later one changes nothing:
    /// if it is of another kind, the two together are evidence of a double
    /// vote.
    pub open spec fn validity_vote(
        self,
        from: C::ValidatorId,
        digest: C::Digest,
        vote: ValidityVote<C::Signature>,
    ) -> (Self, Option<ValidityDoubleVote<C>>) {
        if self.validity_votes.contains_key(from) {
            (self, self.double_vote(digest, self.validity_votes[from], vote))
        } else {
            (self.with_validity_vote(from, vote), None)
        }
    }

    /// A vote for availability arrives from a validator entitled to cast it:
    /// the signature takes the place of any earlier one.
    pub open spec fn availability_vote(self, from: C::ValidatorId, signature: C::Signature) -> Self {
        RecordView { availability_votes: self.availability_votes.insert(from, signature), ..self }
    }

    /// Whether the candidate can be included in a proposal: nobody has called
    /// it bad, and it has the votes asked for.
    pub open spec fn includable(self, validity_threshold: usize, availability_threshold: usize) -> bool {
        &&& self.indicated_bad_by.len() == 0
        &&& self.validity_votes.len() >= validity_threshold
        &&& self.availability_votes.len() >= availability_threshold
    }

    /// The validators who have called the candidate valid, by issuing it or
    /// by voting for it.
    pub open spec fn voted_valid(self) -> Set<C::ValidatorId> {
        Set::new(
            |v: C::ValidatorId|
                self.validity_votes.contains_key(v) && !(self.validity_votes[v] is Invalid),
        )
    }
}

/// Stores votes and data about a candidate.
pub struct CandidateData<C: Context> {
    group_id: C::GroupId,
    candidate: C::Candidate,
    validity_votes: HashMap<C::ValidatorId, ValidityVote<C::Signature>>,
    availability_votes: HashMap<C::ValidatorId, C::Signature>,
    indicated_bad_by: Vec<C::ValidatorId>,
}

impl<C: Context> View for CandidateData<C> {
    type V = RecordView<C>;

    closed spec fn view(&self) -> RecordView<C> {
        RecordView {
            group_id: self.group_id,
            candidate: self.candidate,
            validity_votes: self.validity_votes@,
            availability_votes: self.availability_votes@,
            indicated_bad_by: self.indicated_bad_by@,
        }
    }
}

impl<C: Context> CandidateData<C> {
    /// The record of a candidate nobody has voted on.
    pub fn new(group_id: C::GroupId, candidate: C::Candidate) -> (data: Self)
        ensures
            data@ == RecordView::<C>::fresh(group_id, candidate),
            data@.wf(),
    {
        let data = CandidateData {
            group_id,
            candidate,
            validity_votes: HashMap::new(),
            availability_votes: HashMap::new(),
            indicated_bad_by: Vec::new(),
        };
        assert(data@.indicated_bad_by =~= Seq::empty());
        data
    }

    /// Take in a vote on validity from a validator entitled to cast it, and
    /// hand back the evidence if it contradicts the validator's earlier vote.
    pub fn validity_vote(
        &mut self,
        from: C::ValidatorId,
        digest: C::Digest,
        vote: ValidityVote<C::Signature>,
    ) -> (evidence: Option<ValidityDoubleVote<C>>)
        ensures
            (final(self)@, evidence) == old(self)@.validity_vote(from, digest, vote),
    {
        proof {
            C::values_are_plain();
        }
        let evidence = match self.validity_votes.entry(duplicate(&from)) {
            Entry::Occupied(occupied) => {
                let stored = occupied.get();
                match (stored, vote) {
                    (ValidityVote::Issued(issued), ValidityVote::Valid(good)) => Some(
                        ValidityDoubleVote::IssuedAndValidity(
                            (duplicate(&self.candidate), duplicate(issued)),
                            (digest, good),
                        ),
                    ),
                    (ValidityVote::Valid(good), ValidityVote::Issued(issued)) => Some(
                        ValidityDoubleVote::IssuedAndValidity(
                            (duplicate(&self.candidate), issued),
                            (digest, duplicate(good)),
                        ),
                    ),
                    (ValidityVote::Issued(issued), ValidityVote::Invalid(bad)) => Some(
                        ValidityDoubleVote::IssuedAndInvalidity(
                            (duplicate(&self.candidate), duplicate(issued)),
                            (digest, bad),
                        ),
                    ),
                    (ValidityVote::Invalid(bad), ValidityVote::Issued(issued)) => Some(
                        ValidityDoubleVote::IssuedAndInvalidity(
                            (duplicate(&self.candidate), issued),
                            (digest, duplicate(bad)),
                        ),
                    ),
                    (ValidityVote::Valid(good), ValidityVote::Invalid(bad)) => Some(
                        ValidityDoubleVote::ValidityAndInvalidity(digest, duplicate(good), bad),
                    ),
                    (ValidityVote::Invalid(bad), ValidityVote::Valid(good)) => Some(
                        ValidityDoubleVote::ValidityAndInvalidity(digest, good, duplicate(bad)),
                    ),
                    _ => None,
                }
            },
            Entry::Vacant(vacant) => {
                if let ValidityVote::Invalid(_) = vote {
                    self.indicated_bad_by.push(from);
                }
                vacant.insert(vote);
                None
            },
        };
        assert(self.validity_votes@ =~= old(self)@.validity_vote(from, digest, vote).0.validity_votes);
        evidence
    }

    /// Take in a vote for availability from a validator entitled to cast it.
    pub fn availability_vote(&mut self, from: C::ValidatorId, signature: C::Signature)
        ensures
            final(self)@ == old(self)@.availability_vote(from, signature),
    {
        proof {
            C::values_are_plain();
        }
        self.availability_votes.insert(from, signature);
    }

    /// The group the candidate is meant for.
    pub fn group(&self) -> (group: &C::GroupId)
        ensures
            *group == self@.group_id,
    {
        &self.group_id
    }

    /// The candidate.
    pub fn candidate(&self) -> (candidate: &C::Candidate)
        ensures
            *candidate == self@.candidate,
    {
        &self.candidate
    }

    /// Whether this has been indicated bad by anyone.
    pub fn indicated_bad(&self) -> (bad: bool)
        ensures
            bad == (self@.indicated_bad_by.len() > 0),
    {
        !self.indicated_bad_by.is_empty()
    }

    /// Get those who have indicated this candidate valid, each of them once.
    pub fn voted_valid_by(&self) -> (validators: Vec<C::ValidatorId>)
        ensures
            validators@.no_duplicates(),
            validators@.to_set() == self@.voted_valid(),
    {
        proof {
            C::values_are_plain();
        }
        let mut validators: Vec<C::ValidatorId> = Vec::new();
        let ghost all = self.validity_votes.iter().remaining();
        for entry in votes: self.validity_votes.iter()
            invariant
                votes.seq() == all,
                plain::<C::ValidatorId>(),
                all.no_duplicates(),
                all.len() == self.validity_votes@.dom().len(),
                forall|j: int|
                    0 <= j < all.len() ==> {
                        &&& self.validity_votes@.contains_key(*(#[trigger] all[j]).0)
                        &&& self.validity_votes@[*all[j].0] == *all[j].1
                    },
                forall|v: C::ValidatorId| #[trigger]
                    self.validity_votes@.contains_key(v) ==> all.contains(
                        (&v, &self.validity_votes@[v]),
                    ),
                validators@.no_duplicates(),
                forall|v: C::ValidatorId|
                    validators@.contains(v) <==> exists|j: int|
                        0 <= j < votes.index() && *(#[trigger] all[j]).0 == v && !(
                        *all[j].1 is Invalid),
        {
            let (validator, vote) = entry;
            let ghost before = validators@;
            match vote {
                ValidityVote::Issued(_) | ValidityVote::Valid(_) => {
                    validators.push(duplicate(validator));
                    assert(!before.contains(*validator)) by {
                        if before.contains(*validator) {
                            let j = choose|j: int|
                                0 <= j < votes.index() && *(#[trigger] all[j]).0
                                    == *validator && !(*all[j].1 is Invalid);
                            assert(all[j] == all[votes.index()]);
                        }
                    }
                    assert(validators@.last() == *validator);
                    assert(forall|i: int| 0 <= i < before.len() ==> validators@[i] == before[i]);
                },
                ValidityVote::Invalid(_) => {},
            }
            assert forall|v: C::ValidatorId| validators@.contains(v) implies exists|j: int|
                0 <= j < votes.index() + 1 && *(#[trigger] all[j]).0 == v && !(
                *all[j].1 is Invalid) by {
                if before.contains(v) {
                    let j = choose|j: int|
                        0 <= j < votes.index() && *(#[trigger] all[j]).0 == v && !(
                        *all[j].1 is Invalid);
                    assert(0 <= j < votes.index() + 1);
                } else {
                    assert(v == *validator);
                    assert(*all[votes.index()].0 == v);
                }
            }
            assert forall|v: C::ValidatorId|
                (exists|j: int|
                    0 <= j < votes.index() + 1 && *(#[trigger] all[j]).0 == v && !(
                    *all[j].1 is Invalid)) implies validators@.contains(v) by {
                let j = choose|j: int|
                    0 <= j < votes.index() + 1 && *(#[trigger] all[j]).0 == v && !(
                    *all[j].1 is Invalid);
                if j < votes.index() {
                    assert(before.contains(v));
                    let i = choose|i: int| 0 <= i < before.len() && before[i] == v;
                    assert(validators@[i] == v);
                } else {
                    assert(validators@[validators@.len() - 1] == v);
                }
            }
        }
        proof {
            assert forall|v: C::ValidatorId| self@.voted_valid().contains(v) implies validators@.contains(
                v,
            ) by {
                let pair = (&v, &self.validity_votes@[v]);
                assert(all.contains(pair));
                let j = choose|j: int| 0 <= j < all.len() && all[j] == pair;
                assert(*all[j].0 == v);
            }
            assert(validators@.to_set() =~= self@.voted_valid());
        }
        validators
    }

    /// Candidate data can be included in a proposal if it has enough validity
    /// and availability votes and no validators have called it bad.
    pub fn can_be_included(&self, validity_threshold: usize, availability_threshold: usize) -> (can:
        bool)
        ensures
            can == self@.includable(validity_threshold, availability_threshold),
    {
        proof {
            C::values_are_plain();
        }
        self.indicated_bad_by.is_empty() && self.validity_votes.len() >= validity_threshold
            && self.availability_votes.len() >= availability_threshold
    }
}

} // verus!
