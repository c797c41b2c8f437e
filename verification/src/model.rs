//! The table as a mathematical value, and the rules of the round as
//! functions on it.

use vstd::prelude::*;
use crate::context::{Context, SignedStatement, Statement};
use crate::misbehavior::{Misbehavior, MultipleCandidates, UnauthorizedStatement};
use crate::record::{RecordView, ValidityVote};

verus! {

/// The contents of a [`Table`](crate::Table).
pub struct TableView<C: Context> {
    /// The one candidate each validator has proposed, by its digest, with the
    /// signature under the proposal.
    pub proposed: Map<C::ValidatorId, (C::Digest, C::Signature)>,
    /// What is known of each candidate, by its digest.
    pub records: Map<C::Digest, RecordView<C>>,
    /// The latest evidence against each validator caught misbehaving.
    pub misbehavior: Map<C::ValidatorId, Misbehavior<C>>,
}

/// The evidence that a statement was made without the authority to make it.
pub open spec fn unauthorized<C: Context>(
    statement: Statement<C>,
    signature: C::Signature,
) -> Misbehavior<C> {
    Misbehavior::UnauthorizedStatement(
        UnauthorizedStatement { statement: SignedStatement { statement, signature } },
    )
}

impl<C: Context> RecordView<C> {
    /// The record is sound, it is filed under its candidate's digest and
    /// carries its candidate's group, and every vote in it was cast by a
    /// validator entitled to cast it.
    pub open spec fn wf_under(self, context: &C, digest: C::Digest) -> bool {
        &&& self.wf()
        &&& self.group_id == context.group_of(self.candidate)
        &&& context.digest_of(self.candidate) == digest
        &&& forall|v: C::ValidatorId| #[trigger]
            self.validity_votes.contains_key(v) ==> context.member(v, self.group_id)
        &&& forall|v: C::ValidatorId| #[trigger]
            self.availability_votes.contains_key(v) ==> context.availability_guarantor(
                v,
                self.group_id,
            )
    }
}

impl<C: Context> RecordView<C> {
    /// A vote on validity from a member of the candidate's group leaves a
    /// well-formed record well formed.
    pub proof fn validity_vote_keeps_wf(
        self,
        context: &C,
        key: C::Digest,
        from: C::ValidatorId,
        digest: C::Digest,
        vote: ValidityVote<C::Signature>,
    )
        requires
            self.wf_under(context, key),
            context.member(from, self.group_id),
        ensures
            self.validity_vote(from, digest, vote).0.wf_under(context, key),
    {
        let next = self.validity_vote(from, digest, vote).0;
        if !self.validity_votes.contains_key(from) {
            assert(!self.indicated_bad_by.contains(from));
            if vote is Invalid {
                let accusers = self.indicated_bad_by;
                assert(next.indicated_bad_by == accusers.push(from));
                assert forall|v: C::ValidatorId| next.indicated_bad_by.contains(v) <==> (
                #[trigger] next.validity_votes.contains_key(v) && next.validity_votes[v] is Invalid) by {
                    if next.indicated_bad_by.contains(v) {
                        let i = choose|i: int|
                            0 <= i < next.indicated_bad_by.len() && next.indicated_bad_by[i] == v;
                        if i < accusers.len() {
                            assert(accusers[i] == v);
                            assert(accusers.contains(v));
                        }
                    }
                    if next.validity_votes.contains_key(v) && next.validity_votes[v] is Invalid {
                        if v == from {
                            assert(next.indicated_bad_by[accusers.len() as int] == v);
                        } else {
                            assert(accusers.contains(v));
                            let i = choose|i: int| 0 <= i < accusers.len() && accusers[i] == v;
                            assert(next.indicated_bad_by[i] == v);
                        }
                    }
                }
                assert(next.indicated_bad_by.no_duplicates()) by {
                    assert forall|i: int, j: int|
                        0 <= i < next.indicated_bad_by.len() && 0 <= j
                            < next.indicated_bad_by.len() && i != j implies next.indicated_bad_by[i]
                        != next.indicated_bad_by[j] by {
                        if i < accusers.len() {
                            assert(accusers.contains(next.indicated_bad_by[i]));
                        }
                        if j < accusers.len() {
                            assert(accusers.contains(next.indicated_bad_by[j]));
                        }
                    }
                }
            }
        }
    }
}

impl<C: Context> TableView<C> {
    /// The table at the start of a round.
    pub open spec fn empty() -> Self {
        TableView { proposed: Map::empty(), records: Map::empty(), misbehavior: Map::empty() }
    }

    /// What holds of a table throughout a round held under one context:
    /// every proposed digest has a record, and every record is well formed
    /// under the context.
    pub open spec fn wf(self, context: &C) -> bool {
        &&& self.proposed.dom().finite()
        &&& self.records.dom().finite()
        &&& self.misbehavior.dom().finite()
        &&& forall|v: C::ValidatorId| #[trigger]
            self.proposed.contains_key(v) ==> self.records.contains_key(self.proposed[v].0)
        &&& forall|d: C::Digest| #[trigger]
            self.records.contains_key(d) ==> self.records[d].wf_under(context, d)
    }

    /// A vote on validity reaches the record of the candidate it is about.
    ///
    /// A vote on a candidate that the table has not seen is dropped. An
    /// explicit vote from outside the candidate's group is evidence against
    /// the voter. (An implicit vote comes with a proposal, whose author
    /// [`import_candidate`](Self::import_candidate) has checked.) Any other
    /// vote is the record's to judge.
    pub open spec fn validity_vote(
        self,
        context: &C,
        from: C::ValidatorId,
        digest: C::Digest,
        vote: ValidityVote<C::Signature>,
    ) -> (Self, Option<Misbehavior<C>>) {
        if !self.records.contains_key(digest) {
            (self, None)
        } else {
            let record = self.records[digest];
            match vote {
                ValidityVote::Valid(signature) if !context.member(from, record.group_id) => (
                    self,
                    Some(unauthorized(Statement::Valid(digest), signature)),
                ),
                ValidityVote::Invalid(signature) if !context.member(from, record.group_id) => (
                    self,
                    Some(unauthorized(Statement::Invalid(digest), signature)),
                ),
                _ => {
                    let (record, evidence) = record.validity_vote(from, digest, vote);
                    (
                        TableView { records: self.records.insert(digest, record), ..self },
                        match evidence {
                            Some(double_vote) => Some(Misbehavior::ValidityDoubleVote(double_vote)),
                            None => None,
                        },
                    )
                },
            }
        }
    }

    /// A vote for availability reaches the record of the candidate it is
    /// about.
    ///
    /// A vote on a candidate that the table has not seen is dropped; one from
    /// a validator who does not guarantee availability for the candidate's
    /// group is evidence against the voter; any other is recorded.
    pub open spec fn availability_vote(
        self,
        context: &C,
        from: C::ValidatorId,
        digest: C::Digest,
        signature: C::Signature,
    ) -> (Self, Option<Misbehavior<C>>) {
        if !self.records.contains_key(digest) {
            (self, None)
        } else {
            let record = self.records[digest];
            if !context.availability_guarantor(from, record.group_id) {
                (self, Some(unauthorized(Statement::Available(digest), signature)))
            } else {
                (
                    TableView {
                        records: self.records.insert(
                            digest,
                            record.availability_vote(from, signature),
                        ),
                        ..self
                    },
                    None,
                )
            }
        }
    }

    /// A validator proposes a candidate.
    ///
    /// A proposal for a group the validator is no member of is evidence
    /// against the validator. So is a second proposal, of another candidate
    /// than the first: the evidence holds both. Otherwise the proposal is
    /// noted, the candidate gets a record if it has none, and the validator
    /// is taken to have voted for the candidate by issuing it.
    pub open spec fn import_candidate(
        self,
        context: &C,
        from: C::ValidatorId,
        candidate: C::Candidate,
        signature: C::Signature,
    ) -> (Self, Option<Misbehavior<C>>) {
        let group = context.group_of(candidate);
        let digest = context.digest_of(candidate);
        if !context.member(from, group) {
            (self, Some(unauthorized(Statement::Candidate(candidate), signature)))
        } else if self.proposed.contains_key(from) && self.proposed[from].0 != digest {
            let (old_digest, old_signature) = self.proposed[from];
            (
                self,
                Some(
                    Misbehavior::MultipleCandidates(
                        MultipleCandidates {
                            first: (self.records[old_digest].candidate, old_signature),
                            second: (candidate, signature),
                        },
                    ),
                ),
            )
        } else {
            self.with_proposal(from, digest, signature, group, candidate).validity_vote(
                context,
                from,
                digest,
                ValidityVote::Issued(signature),
            )
        }
    }

    /// The table once a validator's proposal is noted: unchanged if the
    /// validator has proposed before; else the proposal is on file, and so is
    /// a record of the candidate, a fresh one if there was none.
    pub open spec fn with_proposal(
        self,
        from: C::ValidatorId,
        digest: C::Digest,
        signature: C::Signature,
        group: C::GroupId,
        candidate: C::Candidate,
    ) -> Self {
        if self.proposed.contains_key(from) {
            self
        } else {
            TableView {
                proposed: self.proposed.insert(from, (digest, signature)),
                records: if self.records.contains_key(digest) {
                    self.records
                } else {
                    self.records.insert(digest, RecordView::fresh(group, candidate))
                },
                ..self
            }
        }
    }

    /// The table with evidence against a validator put on file, in place of
    /// any that was there; unchanged if there is none to file.
    pub open spec fn with_misbehavior(
        self,
        validator: C::ValidatorId,
        misbehavior: Option<Misbehavior<C>>,
    ) -> Self {
        match misbehavior {
            Some(evidence) => TableView {
                misbehavior: self.misbehavior.insert(validator, evidence),
                ..self
            },
            None => self,
        }
    }

    /// What a statement from a known signer does to the table, and the
    /// evidence it gives against the signer.
    pub open spec fn judge(
        self,
        context: &C,
        signer: C::ValidatorId,
        statement: SignedStatement<C>,
    ) -> (Self, Option<Misbehavior<C>>) {
        match statement.statement {
            Statement::Candidate(candidate) => self.import_candidate(
                context,
                signer,
                candidate,
                statement.signature,
            ),
            Statement::Valid(digest) => self.validity_vote(
                context,
                signer,
                digest,
                ValidityVote::Valid(statement.signature),
            ),
            Statement::Invalid(digest) => self.validity_vote(
                context,
                signer,
                digest,
                ValidityVote::Invalid(statement.signature),
            ),
            Statement::Available(digest) => self.availability_vote(
                context,
                signer,
                digest,
                statement.signature,
            ),
        }
    }

    /// The table after a signed statement has been imported.
    ///
    /// A statement whose signer cannot be told is dropped. Any other is
    /// judged by its kind, and evidence it gives against its signer takes
    /// the place of any earlier evidence against that validator.
    pub open spec fn import(self, context: &C, statement: SignedStatement<C>) -> Self {
        match context.signer_of(statement) {
            None => self,
            Some(signer) => {
                let (next, misbehavior) = self.judge(context, signer, statement);
                next.with_misbehavior(signer, misbehavior)
            },
        }
    }

    /// A vote on validity leaves a well-formed table well formed, if an
    /// implicit vote comes from a member of the candidate's group.
    pub proof fn validity_vote_keeps_wf(
        self,
        context: &C,
        from: C::ValidatorId,
        digest: C::Digest,
        vote: ValidityVote<C::Signature>,
    )
        requires
            self.wf(context),
            vote is Issued && self.records.contains_key(digest) ==> context.member(
                from,
                self.records[digest].group_id,
            ),
        ensures
            self.validity_vote(context, from, digest, vote).0.wf(context),
    {
        if self.records.contains_key(digest) {
            let record = self.records[digest];
            if context.member(from, record.group_id) {
                record.validity_vote_keeps_wf(context, digest, from, digest, vote);
            }
        }
    }

    /// A vote for availability leaves a well-formed table well formed.
    pub proof fn availability_vote_keeps_wf(
        self,
        context: &C,
        from: C::ValidatorId,
        digest: C::Digest,
        signature: C::Signature,
    )
        requires
            self.wf(context),
        ensures
            self.availability_vote(context, from, digest, signature).0.wf(context),
    {
    }

    /// A proposal leaves a well-formed table well formed.
    pub proof fn import_candidate_keeps_wf(
        self,
        context: &C,
        from: C::ValidatorId,
        candidate: C::Candidate,
        signature: C::Signature,
    )
        requires
            self.wf(context),
        ensures
            self.import_candidate(context, from, candidate, signature).0.wf(context),
    {
        let group = context.group_of(candidate);
        let digest = context.digest_of(candidate);
        if context.member(from, group) && !(self.proposed.contains_key(from)
            && self.proposed[from].0 != digest) {
            let noted = self.with_proposal(from, digest, signature, group, candidate);
            assert(noted.wf(context));
            assert(noted.records.contains_key(digest));
            context.digest_fixes_group(noted.records[digest].candidate, candidate);
            noted.validity_vote_keeps_wf(context, from, digest, ValidityVote::Issued(signature));
        }
    }

    /// Importing a statement into a well-formed table leaves a well-formed
    /// table.
    pub proof fn import_keeps_wf(self, context: &C, statement: SignedStatement<C>)
        requires
            self.wf(context),
        ensures
            self.import(context, statement).wf(context),
    {
        if let Some(signer) = context.signer_of(statement) {
            match statement.statement {
                Statement::Candidate(candidate) => {
                    self.import_candidate_keeps_wf(context, signer, candidate, statement.signature);
                },
                Statement::Valid(digest) => {
                    self.validity_vote_keeps_wf(
                        context,
                        signer,
                        digest,
                        ValidityVote::Valid(statement.signature),
                    );
                },
                Statement::Invalid(digest) => {
                    self.validity_vote_keeps_wf(
                        context,
                        signer,
                        digest,
                        ValidityVote::Invalid(statement.signature),
                    );
                },
                Statement::Available(digest) => {
                    self.availability_vote_keeps_wf(context, signer, digest, statement.signature);
                },
            }
        }
    }

    /// The table with its evidence handed over.
    pub open spec fn drained(self) -> Self {
        TableView { misbehavior: Map::empty(), ..self }
    }
}

} // verus!
