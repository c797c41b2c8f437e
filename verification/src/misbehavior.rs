//! Evidence against validators who broke the rules of the round.

use vstd::prelude::*;
use crate::context::{Context, SignedStatement};

verus! {

/// Misbehavior: voting more than one way on candidate validity.
///
/// Since there are three possible ways to vote, a double vote is possible in
/// three possible combinations.
#[derive(PartialEq, Eq, Debug)]
pub enum ValidityDoubleVote<C: Context> {
    /// Implicit vote by issuing and explicitly voting validity.
    IssuedAndValidity((C::Candidate, C::Signature), (C::Digest, C::Signature)),
    /// Implicit vote by issuing and explicitly voting invalidity.
    IssuedAndInvalidity((C::Candidate, C::Signature), (C::Digest, C::Signature)),
    /// Direct votes for validity and invalidity; the signature of the vote
    /// for validity comes first.
    ValidityAndInvalidity(C::Digest, C::Signature, C::Signature),
}

/// Misbehavior: declaring multiple candidates.
#[derive(PartialEq, Eq, Debug)]
pub struct MultipleCandidates<C: Context> {
    /// The first candidate seen.
    pub first: (C::Candidate, C::Signature),
    /// The second candidate seen.
    pub second: (C::Candidate, C::Signature),
}

/// Misbehavior: submitted statement for wrong group.
#[derive(PartialEq, Eq, Debug)]
pub struct UnauthorizedStatement<C: Context> {
    /// A signed statement which was submitted without proper authority.
    pub statement: SignedStatement<C>,
}

/// Different kinds of misbehavior. All of these kinds of malicious misbehavior
/// are easily provable and extremely disincentivized.
#[derive(PartialEq, Eq, Debug)]
pub enum Misbehavior<C: Context> {
    /// Voted invalid and valid on validity.
    ValidityDoubleVote(ValidityDoubleVote<C>),
    /// Submitted multiple candidates.
    MultipleCandidates(MultipleCandidates<C>),
    /// Submitted a message without the authority to do so.
    UnauthorizedStatement(UnauthorizedStatement<C>),
}

} // verus!
