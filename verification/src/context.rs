//! Statements, and the environment a table consults about them.

use std::fmt::Debug;
use std::hash::Hash;
use vstd::prelude::*;
use vstd::laws_cmp::obeys_cmp;
use vstd::std_specs::hash::obeys_key_model;
use crate::plain::plain;

verus! {

/// Statements circulated among peers.
#[derive(PartialEq, Eq, Debug)]
pub enum Statement<C: Context> {
    /// Broadcast by a validator to indicate that this is their candidate for
    /// inclusion.
    ///
    /// Broadcasting two different candidate messages per round is not allowed.
    Candidate(C::Candidate),
    /// Broadcast by a validator to attest that the candidate with given digest
    /// is valid.
    Valid(C::Digest),
    /// Broadcast by a validator to attest that the auxiliary data for a
    /// candidate with given digest is available.
    Available(C::Digest),
    /// Broadcast by a validator to attest that the candidate with given digest
    /// is invalid.
    Invalid(C::Digest),
}

/// A signed statement.
#[derive(PartialEq, Eq, Debug)]
pub struct SignedStatement<C: Context> {
    /// The statement.
    pub statement: Statement<C>,
    /// The signature.
    pub signature: C::Signature,
}

/// Context for the statement table: what a table has to be told about
/// candidates, validators and groups.
///
/// Each operation answers a question, and asking twice gives the same answer.
/// The spec function beside each operation is that answer; the rules of the
/// table are written over these spec functions. The two proof functions are
/// laws that every context obeys, and that the table relies on.
///
/// An implementation that is not verified gives each spec function the body
/// of its operation, and leaves the bodies of the laws empty.
pub trait Context: Sized {
    /// A validator ID.
    type ValidatorId: Hash + Eq + Clone + Debug;

    /// The digest (hash or other unique attribute) of a candidate.
    type Digest: Hash + Eq + Clone + Debug;

    /// Candidate type.
    type Candidate: Ord + Clone + Eq + Debug;

    /// The group ID type.
    type GroupId: Hash + Eq + Clone + Debug + Ord;

    /// A signature type.
    type Signature: Clone + Eq + Debug;

    /// The digest of a candidate.
    spec fn digest_of(&self, candidate: Self::Candidate) -> Self::Digest;

    /// The group a candidate is meant for.
    spec fn group_of(&self, candidate: Self::Candidate) -> Self::GroupId;

    /// Whether a validator may submit candidates and vote on validity in a
    /// group.
    spec fn member(&self, validator: Self::ValidatorId, group: Self::GroupId) -> bool;

    /// Whether a validator may vote on availability for a group.
    spec fn availability_guarantor(
        &self,
        validator: Self::ValidatorId,
        group: Self::GroupId,
    ) -> bool;

    /// Who signed a statement, if the signature is good.
    spec fn signer_of(&self, statement: SignedStatement<Self>) -> Option<Self::ValidatorId>;

    /// How many validity votes and how many availability votes a candidate of
    /// a group needs, in that order.
    spec fn thresholds(&self, group: Self::GroupId) -> (usize, usize);

    /// Get the digest of a candidate.
    fn candidate_digest(&self, candidate: &Self::Candidate) -> (digest: Self::Digest)
        ensures
            digest == self.digest_of(*candidate),
    ;

    /// Get the group of a candidate.
    fn candidate_group(&self, candidate: &Self::Candidate) -> (group: Self::GroupId)
        ensures
            group == self.group_of(*candidate),
    ;

    /// Whether a validator is a member of a group.
    /// Members are meant to submit candidates and vote on validity.
    fn is_member_of(&self, validator: &Self::ValidatorId, group: &Self::GroupId) -> (member: bool)
        ensures
            member == self.member(*validator, *group),
    ;

    /// Whether a validator is an availability guarantor of a group.
    /// Guarantors are meant to vote on availability for candidates submitted
    /// in a group.
    fn is_availability_guarantor_of(
        &self,
        validator: &Self::ValidatorId,
        group: &Self::GroupId,
    ) -> (guarantor: bool)
        ensures
            guarantor == self.availability_guarantor(*validator, *group),
    ;

    /// Recover the signer of a statement.
    fn statement_signer(&self, statement: &SignedStatement<Self>) -> (signer: Option<
        Self::ValidatorId,
    >)
        ensures
            signer == self.signer_of(*statement),
    ;

    /// Requisite number of votes for validity and availability respectively
    /// from a group.
    fn requisite_votes(&self, group: &Self::GroupId) -> (votes: (usize, usize))
        ensures
            votes == self.thresholds(*group),
    ;

    /// A digest names its candidate well enough to tell the group: two
    /// candidates with one digest are meant for one group. So the proposer
    /// of a candidate that is on record under its digest already is a member
    /// of the group on record.
    proof fn digest_fixes_group(&self, a: Self::Candidate, b: Self::Candidate)
        requires
            self.digest_of(a) == self.digest_of(b),
        ensures
            self.group_of(a) == self.group_of(b),
    ;

    /// The values handed to the table compare and copy as values do,
    /// validator identities and digests can key a hash map, and group
    /// identities and candidates are totally ordered.
    proof fn values_are_plain()
        ensures
            plain::<Self::ValidatorId>(),
            plain::<Self::Digest>(),
            plain::<Self::Candidate>(),
            plain::<Self::GroupId>(),
            plain::<Self::Signature>(),
            obeys_key_model::<Self::ValidatorId>(),
            obeys_key_model::<Self::Digest>(),
            obeys_cmp::<Self::GroupId>(),
            obeys_cmp::<Self::Candidate>(),
    ;
}

} // verus!
