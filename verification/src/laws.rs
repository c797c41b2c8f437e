//! What follows from the rules of the round.

use vstd::prelude::*;
use crate::context::{Context, SignedStatement, Statement};
use crate::misbehavior::Misbehavior;
use crate::model::TableView;
use crate::record::{RecordView, ValidityVote};

verus! {

impl<S> ValidityVote<S> {
    /// The kind of the vote: the vote without its signature.
    pub open spec fn kind(self) -> ValidityVote<()> {
        match self {
            ValidityVote::Issued(_) => ValidityVote::Issued(()),
            ValidityVote::Valid(_) => ValidityVote::Valid(()),
            ValidityVote::Invalid(_) => ValidityVote::Invalid(()),
        }
    }
}

impl<C: Context> RecordView<C> {
    /// The kinds of the votes on validity that the record holds from a
    /// validator.
    pub open spec fn kinds_held(self, validator: C::ValidatorId) -> Set<ValidityVote<()>> {
        Set::new(
            |kind: ValidityVote<()>|
                self.validity_votes.contains_key(validator)
                    && self.validity_votes[validator].kind() == kind,
        )
    }
}

impl<C: Context> TableView<C> {
    /// The table after a run of statements has been imported, the first of
    /// them first.
    pub open spec fn import_all(self, context: &C, statements: Seq<SignedStatement<C>>) -> Self
        decreases statements.len(),
    {
        if statements.len() == 0 {
            self
        } else {
            self.import_all(context, statements.drop_last()).import(context, statements.last())
        }
    }

    /// The kinds of the votes on validity that the table holds from a
    /// validator, over all candidates.
    pub open spec fn kinds_held(self, validator: C::ValidatorId) -> Set<ValidityVote<()>> {
        Set::new(
            |kind: ValidityVote<()>|
                exists|digest: C::Digest|
                    #[trigger] self.records.contains_key(digest)
                        && self.records[digest].validity_votes.contains_key(validator)
                        && self.records[digest].validity_votes[validator].kind() == kind,
        )
    }
}

/// The empty table is well formed under every context.
pub proof fn empty_is_wf<C: Context>(context: &C)
    ensures
        TableView::<C>::empty().wf(context),
{
}

/// Handing over the evidence leaves a well-formed table well formed.
pub proof fn drained_is_wf<C: Context>(table: TableView<C>, context: &C)
    requires
        table.wf(context),
    ensures
        table.drained().wf(context),
{
}

/// Whatever statements are imported into a well-formed table, in whatever
/// order, the table stays well formed.
pub proof fn import_all_keeps_wf<C: Context>(
    table: TableView<C>,
    context: &C,
    statements: Seq<SignedStatement<C>>,
)
    requires
        table.wf(context),
    ensures
        table.import_all(context, statements).wf(context),
    decreases statements.len(),
{
    if statements.len() > 0 {
        import_all_keeps_wf(table, context, statements.drop_last());
        table.import_all(context, statements.drop_last()).import_keeps_wf(
            context,
            statements.last(),
        );
    }
}

/// After any run of statements from the start of a round, every record
/// carries the group of its candidate.
pub proof fn records_carry_their_candidates_group<C: Context>(
    context: &C,
    statements: Seq<SignedStatement<C>>,
    digest: C::Digest,
)
    requires
        TableView::<C>::empty().import_all(context, statements).records.contains_key(digest),
    ensures
        ({
            let record = TableView::<C>::empty().import_all(context, statements).records[digest];
            record.group_id == context.group_of(record.candidate)
        }),
{
    import_all_keeps_wf(TableView::<C>::empty(), context, statements);
}

/// On any one candidate, a validator holds votes of at most one kind.
pub proof fn one_kind_of_vote_per_candidate<C: Context>(
    record: RecordView<C>,
    validator: C::ValidatorId,
)
    ensures
        record.kinds_held(validator).finite(),
        record.kinds_held(validator).len() <= 1,
{
    let kinds = record.kinds_held(validator);
    if record.validity_votes.contains_key(validator) {
        assert(kinds =~= set![record.validity_votes[validator].kind()]);
    } else {
        assert(kinds =~= Set::empty());
    }
}

/// A validator whose votes on validity are all on one candidate holds votes
/// of at most one kind.
pub proof fn one_kind_of_vote_on_one_candidate<C: Context>(
    table: TableView<C>,
    validator: C::ValidatorId,
)
    requires
        forall|a: C::Digest, b: C::Digest|
            #[trigger] table.records.contains_key(a) && #[trigger] table.records.contains_key(b)
                && table.records[a].validity_votes.contains_key(validator)
                && table.records[b].validity_votes.contains_key(validator) ==> a == b,
    ensures
        table.kinds_held(validator).finite(),
        table.kinds_held(validator).len() <= 1,
        table.kinds_held(validator).len() <= 1 + if table.misbehavior.contains_key(validator) {
            1nat
        } else {
            0nat
        },
{
    let kinds = table.kinds_held(validator);
    if exists|kind: ValidityVote<()>| kinds.contains(kind) {
        let kind = choose|kind: ValidityVote<()>| kinds.contains(kind);
        assert(kinds =~= set![kind]);
    } else {
        assert(kinds =~= Set::empty());
    }
}

/// A validator who has a vote on record for a candidate, and votes on it
/// again in another way, is caught: the vote on record stays, and the two
/// votes together are the evidence on file against the validator.
pub proof fn second_vote_of_another_kind_is_caught<C: Context>(
    table: TableView<C>,
    context: &C,
    statement: SignedStatement<C>,
    validator: C::ValidatorId,
    digest: C::Digest,
    vote: ValidityVote<C::Signature>,
)
    requires
        context.signer_of(statement) == Some(validator),
        (statement.statement == Statement::<C>::Valid(digest) && vote == ValidityVote::Valid(
            statement.signature,
        )) || (statement.statement == Statement::<C>::Invalid(digest) && vote
            == ValidityVote::Invalid(statement.signature)),
        table.records.contains_key(digest),
        context.member(validator, table.records[digest].group_id),
        table.records[digest].validity_votes.contains_key(validator),
        table.records[digest].validity_votes[validator].kind() != vote.kind(),
    ensures
        table.import(context, statement).records == table.records,
        table.import(context, statement).proposed == table.proposed,
        table.import(context, statement).misbehavior.contains_key(validator),
        table.records[digest].double_vote(
            digest,
            table.records[digest].validity_votes[validator],
            vote,
        ) matches Some(evidence) && table.import(context, statement).misbehavior[validator]
            == Misbehavior::ValidityDoubleVote(evidence),
{
    let record = table.records[digest];
    assert(table.records.insert(digest, record) =~= table.records);
}

/// A vote on validity that is taken in a second time changes nothing, and
/// gives the evidence it gave the first time.
pub proof fn validity_vote_is_idempotent<C: Context>(
    table: TableView<C>,
    context: &C,
    from: C::ValidatorId,
    digest: C::Digest,
    vote: ValidityVote<C::Signature>,
)
    ensures
        ({
            let (once, evidence) = table.validity_vote(context, from, digest, vote);
            once.validity_vote(context, from, digest, vote) == (once, evidence)
        }),
{
    let (once, evidence) = table.validity_vote(context, from, digest, vote);
    let (twice, again) = once.validity_vote(context, from, digest, vote);
    if table.records.contains_key(digest) {
        let record = table.records[digest];
        let (voted, _) = record.validity_vote(from, digest, vote);
        assert(voted.validity_vote(from, digest, vote).0 == voted);
        assert(twice.records =~= once.records);
    }
}

/// A vote for availability that is taken in a second time changes nothing,
/// and gives the evidence it gave the first time.
pub proof fn availability_vote_is_idempotent<C: Context>(
    table: TableView<C>,
    context: &C,
    from: C::ValidatorId,
    digest: C::Digest,
    signature: C::Signature,
)
    ensures
        ({
            let (once, evidence) = table.availability_vote(context, from, digest, signature);
            once.availability_vote(context, from, digest, signature) == (once, evidence)
        }),
{
    let (once, evidence) = table.availability_vote(context, from, digest, signature);
    let (twice, again) = once.availability_vote(context, from, digest, signature);
    if table.records.contains_key(digest) {
        let record = table.records[digest];
        let voted = record.availability_vote(from, signature);
        assert(voted.availability_votes.insert(from, signature) =~= voted.availability_votes);
        assert(twice.records =~= once.records);
    }
}

/// A proposal that is taken in a second time changes nothing, and gives the
/// evidence it gave the first time.
pub proof fn import_candidate_is_idempotent<C: Context>(
    table: TableView<C>,
    context: &C,
    from: C::ValidatorId,
    candidate: C::Candidate,
    signature: C::Signature,
)
    ensures
        ({
            let (once, evidence) = table.import_candidate(context, from, candidate, signature);
            once.import_candidate(context, from, candidate, signature) == (once, evidence)
        }),
{
    let group = context.group_of(candidate);
    let digest = context.digest_of(candidate);
    let noted = table.with_proposal(from, digest, signature, group, candidate);
    validity_vote_is_idempotent(noted, context, from, digest, ValidityVote::Issued(signature));
}

/// Importing a statement a second time changes nothing.
pub proof fn import_is_idempotent<C: Context>(
    table: TableView<C>,
    context: &C,
    statement: SignedStatement<C>,
)
    ensures
        table.import(context, statement).import(context, statement) == table.import(
            context,
            statement,
        ),
{
    if let Some(signer) = context.signer_of(statement) {
        let (judged, evidence) = table.judge(context, signer, statement);
        let once = judged.with_misbehavior(signer, evidence);
        match statement.statement {
            Statement::Candidate(candidate) => {
                import_candidate_is_idempotent(
                    table,
                    context,
                    signer,
                    candidate,
                    statement.signature,
                );
            },
            Statement::Valid(digest) => {
                validity_vote_is_idempotent(
                    table,
                    context,
                    signer,
                    digest,
                    ValidityVote::Valid(statement.signature),
                );
            },
            Statement::Invalid(digest) => {
                validity_vote_is_idempotent(
                    table,
                    context,
                    signer,
                    digest,
                    ValidityVote::Invalid(statement.signature),
                );
            },
            Statement::Available(digest) => {
                availability_vote_is_idempotent(
                    table,
                    context,
                    signer,
                    digest,
                    statement.signature,
                );
            },
        }
        let (rejudged, again) = once.judge(context, signer, statement);
        assert(rejudged == TableView { misbehavior: once.misbehavior, ..judged });
        assert(again == evidence);
        let twice = rejudged.with_misbehavior(signer, again);
        assert(twice.misbehavior =~= once.misbehavior);
    }
}

} // verus!
