//! The statement table.
//!
//! This stores messages other validators issue about candidates.
//!
//! These messages are used to create a proposal submitted to a BFT consensus
//! process.
//!
//! Proposals are formed of sets of candidates which have the requisite number
//! of validity and availability votes.
//!
//! Each parachain is associated with two sets of validators: those which can
//! propose and attest to validity of candidates, and those who can only
//! attest to availability.

use std::collections::hash_map::Entry;
use std::collections::BTreeMap;
use std::collections::HashMap;
use vstd::prelude::*;
use vstd::std_specs::btree::increasing_seq;
use vstd::std_specs::iter::IteratorSpec;
use crate::context::{Context, SignedStatement, Statement};
use crate::misbehavior::{Misbehavior, MultipleCandidates, UnauthorizedStatement};
use crate::model::TableView;
use crate::order::{before, comes_before, lemma_strictly_ordered};
use crate::plain::{duplicate, plain, same};
use crate::record::{CandidateData, ValidityVote};

verus! {

/// Stores votes.
pub struct Table<C: Context> {
    proposed_candidates: HashMap<C::ValidatorId, (C::Digest, C::Signature)>,
    detected_misbehavior: HashMap<C::ValidatorId, Misbehavior<C>>,
    candidate_votes: HashMap<C::Digest, CandidateData<C>>,
}

impl<C: Context> View for Table<C> {
    type V = TableView<C>;

    closed spec fn view(&self) -> TableView<C> {
        TableView {
            proposed: self.proposed_candidates@,
            records: self.candidate_votes@.map_values(|data: CandidateData<C>| data@),
            misbehavior: self.detected_misbehavior@,
        }
    }
}

impl<C: Context> Default for Table<C> {
    fn default() -> (table: Self)
        ensures
            table@ == TableView::<C>::empty(),
    {
        create()
    }
}

/// Create a new, empty statement table.
pub fn create<C: Context>() -> (table: Table<C>)
    ensures
        table@ == TableView::<C>::empty(),
{
    let table = Table {
        proposed_candidates: HashMap::new(),
        detected_misbehavior: HashMap::new(),
        candidate_votes: HashMap::new(),
    };
    assert(table@.records =~= Map::empty());
    table
}

impl<C: Context> Table<C> {
    /// Whether the table is one that a round under `context` can have led to.
    pub open spec fn wf(&self, context: &C) -> bool {
        self@.wf(context)
    }

    /// Produce a set of proposed candidates.
    ///
    /// This will be at most one per group, consisting of the
    /// best candidate for each group with requisite votes for inclusion.
    pub fn proposed_candidates(&self, context: &C) -> (chosen: Vec<C::Candidate>)
        requires
            self.wf(context),
        ensures
            self@.puts_forward(context, chosen@),
    {
        proof {
            C::values_are_plain();
        }
        let mut best_candidates: BTreeMap<C::GroupId, &C::Candidate> = BTreeMap::new();
        let ghost all = self.candidate_votes.iter().remaining();
        for entry in records: self.candidate_votes.iter()
            invariant
                self.wf(context),
                records.seq() == all,
                all.len() == self.candidate_votes@.dom().len(),
                forall|j: int|
                    0 <= j < all.len() ==> {
                        &&& self.candidate_votes@.contains_key(*(#[trigger] all[j]).0)
                        &&& self.candidate_votes@[*all[j].0] == *all[j].1
                    },
                forall|d: C::Digest| #[trigger]
                    self.candidate_votes@.contains_key(d) ==> all.contains(
                        (&d, &self.candidate_votes@[d]),
                    ),
                forall|g: C::GroupId| #[trigger]
                    best_candidates@.contains_key(g) ==> exists|j: int|
                        0 <= j < records.index() && self@.includable(
                            context,
                            *(#[trigger] all[j]).0,
                        ) && all[j].1@.group_id == g && all[j].1@.candidate == *best_candidates@[g],
                forall|j: int|
                    0 <= j < records.index() && self@.includable(context, *(#[trigger] all[j]).0)
                        ==> {
                        &&& best_candidates@.contains_key(all[j].1@.group_id)
                        &&& !before(*best_candidates@[all[j].1@.group_id], all[j].1@.candidate)
                    },
        {
            proof {
                C::values_are_plain();
                lemma_strictly_ordered::<C::Candidate>();
            }
            let (_, candidate_data) = entry;
            let group_id = candidate_data.group();
            let (validity_t, availability_t) = context.requisite_votes(group_id);
            let ghost before_best = best_candidates@;
            if candidate_data.can_be_included(validity_t, availability_t) {
                let candidate = candidate_data.candidate();
                let better = match best_candidates.get(group_id) {
                    Some(current) => comes_before(*current, candidate),
                    None => true,
                };
                if better {
                    best_candidates.insert(duplicate(group_id), candidate);
                }
            }
            proof {
                let at = records.index();
                assert(self@.records[*all[at].0] == all[at].1@);
                assert forall|g: C::GroupId| #[trigger]
                    best_candidates@.contains_key(g) implies exists|j: int|
                    0 <= j < at + 1 && self@.includable(context, *(#[trigger] all[j]).0)
                        && all[j].1@.group_id == g && all[j].1@.candidate
                        == *best_candidates@[g] by {
                    if before_best.contains_key(g) && best_candidates@[g] == before_best[g] {
                        let j = choose|j: int|
                            0 <= j < at && self@.includable(context, *(#[trigger] all[j]).0)
                                && all[j].1@.group_id == g && all[j].1@.candidate
                                == *before_best[g];
                        assert(0 <= j < at + 1);
                    } else {
                        assert(all[at].1@.group_id == g);
                    }
                }
                assert forall|j: int|
                    0 <= j < at + 1 && self@.includable(
                        context,
                        *(#[trigger] all[j]).0,
                    ) implies best_candidates@.contains_key(all[j].1@.group_id) && !before(
                    *best_candidates@[all[j].1@.group_id],
                    all[j].1@.candidate,
                ) by {
                    if j < at {
                        assert(before_best.contains_key(all[j].1@.group_id));
                    }
                }
            }
        }
        let groups = best_candidates.iter();
        let ghost pairs = groups.remaining();
        proof {
            let keys = pairs.map_values(|kv: (&C::GroupId, &&C::Candidate)| *kv.0);
            assert(increasing_seq(keys));
            assert forall|i: int, j: int| 0 <= i < j < pairs.len() implies before(
                *(#[trigger] pairs[i]).0,
                *(#[trigger] pairs[j]).0,
            ) by {
                assert(keys[i] == *pairs[i].0);
                assert(keys[j] == *pairs[j].0);
            }
        }
        let mut chosen: Vec<C::Candidate> = Vec::new();
        for entry in best: groups
            invariant
                plain::<C::Candidate>(),
                best.seq() == pairs,
                chosen@.len() == best.index(),
                forall|i: int| 0 <= i < chosen@.len() ==> #[trigger] chosen@[i] == **pairs[i].1,
        {
            let (_, candidate) = entry;
            chosen.push(duplicate(*candidate));
        }
        proof {
            let table = self@;
            assert forall|i: int| 0 <= i < chosen@.len() implies {
                &&& table.best_of_group(context, context.digest_of(#[trigger] chosen@[i]))
                &&& table.records[context.digest_of(chosen@[i])].candidate == chosen@[i]
                &&& context.group_of(chosen@[i]) == *pairs[i].0
            } by {
                let g = *pairs[i].0;
                assert(best_candidates@.contains_key(g) && best_candidates@[g] == *pairs[i].1);
                let j = choose|j: int|
                    0 <= j < all.len() && table.includable(context, *(#[trigger] all[j]).0)
                        && all[j].1@.group_id == g && all[j].1@.candidate == *best_candidates@[g];
                let digest = *all[j].0;
                assert(table.records[digest] == all[j].1@);
                assert(context.digest_of(chosen@[i]) == digest);
                assert forall|other: C::Digest|
                    #[trigger] table.includable(context, other) && table.records[other].group_id
                        == table.records[digest].group_id implies !before(
                    table.records[digest].candidate,
                    table.records[other].candidate,
                ) by {
                    let pair = (&other, &self.candidate_votes@[other]);
                    assert(all.contains(pair));
                    let k = choose|k: int| 0 <= k < all.len() && all[k] == pair;
                    assert(table.includable(context, *all[k].0));
                }
            }
            assert forall|digest: C::Digest| #[trigger]
                table.includable(context, digest) implies exists|i: int|
                0 <= i < chosen@.len() && context.group_of(#[trigger] chosen@[i])
                    == table.records[digest].group_id by {
                let pair = (&digest, &self.candidate_votes@[digest]);
                assert(all.contains(pair));
                let k = choose|k: int| 0 <= k < all.len() && all[k] == pair;
                assert(table.includable(context, *all[k].0));
                let g = table.records[digest].group_id;
                assert(best_candidates@.contains_key(g));
                let chosen_pair = (&g, &best_candidates@[g]);
                assert(pairs.contains(chosen_pair));
                let i = choose|i: int| 0 <= i < pairs.len() && pairs[i] == chosen_pair;
                assert(context.group_of(chosen@[i]) == g);
            }
        }
        chosen
    }

    /// Get all candidates with a given group.
    pub fn candidates_in_group(&self, group_id: C::GroupId) -> (found: Vec<&CandidateData<C>>)
        ensures
            self@.lists_group(group_id, Seq::new(found@.len(), |i: int| found@[i]@)),
    {
        proof {
            C::values_are_plain();
        }
        let mut found: Vec<&CandidateData<C>> = Vec::new();
        let ghost mut digests: Seq<C::Digest> = Seq::empty();
        let ghost all = self.candidate_votes.iter().remaining();
        for entry in records: self.candidate_votes.iter()
            invariant
                plain::<C::GroupId>(),
                records.seq() == all,
                all.no_duplicates(),
                forall|j: int|
                    0 <= j < all.len() ==> {
                        &&& self.candidate_votes@.contains_key(*(#[trigger] all[j]).0)
                        &&& self.candidate_votes@[*all[j].0] == *all[j].1
                    },
                forall|d: C::Digest| #[trigger]
                    self.candidate_votes@.contains_key(d) ==> all.contains(
                        (&d, &self.candidate_votes@[d]),
                    ),
                digests.no_duplicates(),
                digests.len() == found@.len(),
                forall|i: int|
                    0 <= i < digests.len() ==> {
                        &&& self@.records.contains_key(#[trigger] digests[i])
                        &&& self@.records[digests[i]] == found@[i]@
                        &&& found@[i]@.group_id == group_id
                    },
                forall|d: C::Digest|
                    digests.contains(d) <==> exists|j: int|
                        0 <= j < records.index() && *(#[trigger] all[j]).0 == d
                            && all[j].1@.group_id == group_id,
        {
            let (digest, candidate_data) = entry;
            let ghost found_before = found@;
            let ghost digests_before = digests;
            let ghost at = records.index();
            if same(candidate_data.group(), &group_id) {
                found.push(candidate_data);
                proof {
                    digests = digests.push(*digest);
                    assert(!digests_before.contains(*digest)) by {
                        if digests_before.contains(*digest) {
                            let j = choose|j: int|
                                0 <= j < at && *(#[trigger] all[j]).0 == *digest
                                    && all[j].1@.group_id == group_id;
                            assert(all[j] == all[at]);
                        }
                    }
                    assert(forall|i: int|
                        0 <= i < digests_before.len() ==> digests[i] == digests_before[i]
                            && found@[i] == found_before[i]);
                    assert(digests[digests_before.len() as int] == *digest);
                }
            }
            proof {
                assert forall|d: C::Digest| digests.contains(d) implies exists|j: int|
                    0 <= j < at + 1 && *(#[trigger] all[j]).0 == d && all[j].1@.group_id
                        == group_id by {
                    if digests_before.contains(d) {
                        let j = choose|j: int|
                            0 <= j < at && *(#[trigger] all[j]).0 == d && all[j].1@.group_id
                                == group_id;
                        assert(0 <= j < at + 1);
                    } else {
                        assert(*all[at].0 == d);
                    }
                }
                assert forall|d: C::Digest|
                    (exists|j: int|
                        0 <= j < at + 1 && *(#[trigger] all[j]).0 == d && all[j].1@.group_id
                            == group_id) implies digests.contains(d) by {
                    let j = choose|j: int|
                        0 <= j < at + 1 && *(#[trigger] all[j]).0 == d && all[j].1@.group_id
                            == group_id;
                    if j < at {
                        assert(digests_before.contains(d));
                        let i = choose|i: int|
                            0 <= i < digests_before.len() && digests_before[i] == d;
                        assert(digests[i] == d);
                    } else {
                        assert(digests[digests.len() - 1] == d);
                    }
                }
            }
        }
        proof {
            let listed = Seq::new(found@.len(), |i: int| found@[i]@);
            assert forall|digest: C::Digest|
                #[trigger] self@.records.contains_key(digest) && self@.records[digest].group_id
                    == group_id implies digests.contains(digest) by {
                let pair = (&digest, &self.candidate_votes@[digest]);
                assert(all.contains(pair));
                let j = choose|j: int| 0 <= j < all.len() && all[j] == pair;
                assert(*all[j].0 == digest);
            }
            assert forall|i: int| 0 <= i < digests.len() implies {
                &&& self@.records.contains_key(#[trigger] digests[i])
                &&& self@.records[digests[i]] == listed[i]
                &&& listed[i].group_id == group_id
            } by {
                assert(listed[i] == found@[i]@);
            }
        }
        found
    }

    /// Whether the table has a record of the candidate with the given digest.
    ///
    /// A vote on a candidate that the table has no record of is dropped when
    /// it is imported. A caller that would rather keep such a vote until the
    /// candidate is known can tell here which votes to keep.
    pub fn has_candidate(&self, digest: &C::Digest) -> (known: bool)
        ensures
            known == self@.records.contains_key(*digest),
    {
        proof {
            C::values_are_plain();
        }
        self.candidate_votes.contains_key(digest)
    }

    /// The misbehavior observed since the table was made or last drained.
    pub fn detected_misbehavior(&self) -> (misbehavior: &HashMap<C::ValidatorId, Misbehavior<C>>)
        ensures
            misbehavior@ == self@.misbehavior,
    {
        &self.detected_misbehavior
    }

    /// Drain all misbehavior observed up to this point.
    pub fn drain_misbehavior(&mut self) -> (misbehavior: HashMap<C::ValidatorId, Misbehavior<C>>)
        ensures
            misbehavior@ == old(self)@.misbehavior,
            final(self)@ == old(self)@.drained(),
    {
        let mut misbehavior = HashMap::new();
        core::mem::swap(&mut self.detected_misbehavior, &mut misbehavior);
        misbehavior
    }

    /// Import a signed statement.
    pub fn import_statement(&mut self, context: &C, statement: SignedStatement<C>)
        requires
            old(self).wf(context),
        ensures
            final(self)@ == old(self)@.import(context, statement),
            final(self).wf(context),
    {
        proof {
            C::values_are_plain();
            old(self)@.import_keeps_wf(context, statement);
        }
        let signer = match context.statement_signer(&statement) {
            None => return,
            Some(signer) => signer,
        };

        let maybe_misbehavior = match statement.statement {
            Statement::Candidate(candidate) => self.import_candidate(
                context,
                duplicate(&signer),
                candidate,
                statement.signature,
            ),
            Statement::Valid(digest) => self.validity_vote(
                context,
                duplicate(&signer),
                digest,
                ValidityVote::Valid(statement.signature),
            ),
            Statement::Invalid(digest) => self.validity_vote(
                context,
                duplicate(&signer),
                digest,
                ValidityVote::Invalid(statement.signature),
            ),
            Statement::Available(digest) => self.availability_vote(
                context,
                duplicate(&signer),
                digest,
                statement.signature,
            ),
        };

        if let Some(misbehavior) = maybe_misbehavior {
            // all misbehavior in agreement is provable and actively malicious.
            // punishments are not cumulative.
            self.detected_misbehavior.insert(signer, misbehavior);
        }
    }

    /// Take in a validator's proposal of a candidate.
    fn import_candidate(
        &mut self,
        context: &C,
        from: C::ValidatorId,
        candidate: C::Candidate,
        signature: C::Signature,
    ) -> (misbehavior: Option<Misbehavior<C>>)
        requires
            old(self).wf(context),
        ensures
            (final(self)@, misbehavior) == old(self)@.import_candidate(
                context,
                from,
                candidate,
                signature,
            ),
    {
        proof {
            C::values_are_plain();
        }
        let group = context.candidate_group(&candidate);
        if !context.is_member_of(&from, &group) {
            return Some(
                Misbehavior::UnauthorizedStatement(
                    UnauthorizedStatement {
                        statement: SignedStatement {
                            signature,
                            statement: Statement::Candidate(candidate),
                        },
                    },
                ),
            );
        }
        // check that validator hasn't already specified another candidate.

        let digest = context.candidate_digest(&candidate);

        match self.proposed_candidates.entry(duplicate(&from)) {
            Entry::Occupied(occupied) => {
                // if digest is different, fetch candidate and
                // note misbehavior.
                let old_digest = &occupied.get().0;
                if !same(old_digest, &digest) {
                    let old_candidate = match self.candidate_votes.get(old_digest) {
                        Some(data) => duplicate(data.candidate()),
                        None => unreached(),
                    };
                    let old_signature = duplicate(&occupied.get().1);
                    assert(self@.proposed =~= old(self)@.proposed);
                    return Some(
                        Misbehavior::MultipleCandidates(
                            MultipleCandidates {
                                first: (old_candidate, old_signature),
                                second: (candidate, signature),
                            },
                        ),
                    );
                }
            },
            Entry::Vacant(vacant) => {
                vacant.insert((duplicate(&digest), duplicate(&signature)));
                match self.candidate_votes.entry(duplicate(&digest)) {
                    Entry::Occupied(_) => {},
                    Entry::Vacant(vacant) => {
                        vacant.insert(CandidateData::new(group, candidate));
                    },
                }
            },
        }
        proof {
            let noted = old(self)@.with_proposal(from, digest, signature, group, candidate);
            assert(self@.proposed =~= noted.proposed);
            assert(self@.records =~= noted.records);
            if noted.records.contains_key(digest) {
                context.digest_fixes_group(noted.records[digest].candidate, candidate);
            }
        }
        self.validity_vote(context, from, digest, ValidityVote::Issued(signature))
    }

    /// Take in a vote for the availability of the candidate with the given
    /// digest.
    fn availability_vote(
        &mut self,
        context: &C,
        from: C::ValidatorId,
        digest: C::Digest,
        signature: C::Signature,
    ) -> (misbehavior: Option<Misbehavior<C>>)
        ensures
            (final(self)@, misbehavior) == old(self)@.availability_vote(
                context,
                from,
                digest,
                signature,
            ),
    {
        proof {
            C::values_are_plain();
        }
        let misbehavior = match self.candidate_votes.entry(duplicate(&digest)) {
            Entry::Vacant(_) => None,
            Entry::Occupied(mut occupied) => {
                let votes = occupied.get_mut();
                // check that this validator actually can vote in this group.
                if !context.is_availability_guarantor_of(&from, votes.group()) {
                    Some(
                        Misbehavior::UnauthorizedStatement(
                            UnauthorizedStatement {
                                statement: SignedStatement {
                                    signature,
                                    statement: Statement::Available(digest),
                                },
                            },
                        ),
                    )
                } else {
                    votes.availability_vote(from, signature);
                    None
                }
            },
        };
        assert(self@.records =~= old(self)@.availability_vote(
            context,
            from,
            digest,
            signature,
        ).0.records);
        misbehavior
    }

    /// Take in a vote on the validity of the candidate with the given digest.
    fn validity_vote(
        &mut self,
        context: &C,
        from: C::ValidatorId,
        digest: C::Digest,
        vote: ValidityVote<C::Signature>,
    ) -> (misbehavior: Option<Misbehavior<C>>)
        requires
            vote is Issued && old(self)@.records.contains_key(digest) ==> context.member(
                from,
                old(self)@.records[digest].group_id,
            ),
        ensures
            (final(self)@, misbehavior) == old(self)@.validity_vote(context, from, digest, vote),
    {
        proof {
            C::values_are_plain();
        }
        let misbehavior = match self.candidate_votes.entry(duplicate(&digest)) {
            Entry::Vacant(_) => None,
            Entry::Occupied(mut occupied) => {
                let votes = occupied.get_mut();
                // check that this validator actually can vote in this group.
                if !context.is_member_of(&from, votes.group()) {
                    match vote {
                        ValidityVote::Valid(signature) => Some(
                            Misbehavior::UnauthorizedStatement(
                                UnauthorizedStatement {
                                    statement: SignedStatement {
                                        signature,
                                        statement: Statement::Valid(digest),
                                    },
                                },
                            ),
                        ),
                        ValidityVote::Invalid(signature) => Some(
                            Misbehavior::UnauthorizedStatement(
                                UnauthorizedStatement {
                                    statement: SignedStatement {
                                        signature,
                                        statement: Statement::Invalid(digest),
                                    },
                                },
                            ),
                        ),
                        ValidityVote::Issued(_) => unreached(),
                    }
                } else {
                    // check for double votes.
                    match votes.validity_vote(from, digest, vote) {
                        Some(double_vote) => Some(Misbehavior::ValidityDoubleVote(double_vote)),
                        None => None,
                    }
                }
            },
        };
        assert(self@.records =~= old(self)@.validity_vote(context, from, digest, vote).0.records);
        misbehavior
    }
}

} // verus!
