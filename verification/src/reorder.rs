//! The order in which statements arrive, and when it does not matter.

use vstd::prelude::*;
use crate::context::{Context, SignedStatement, Statement};
use crate::misbehavior::Misbehavior;
use crate::laws::{import_all_keeps_wf, import_is_idempotent};
use crate::model::TableView;
use crate::record::{RecordView, ValidityVote};

verus! {

impl<C: Context> SignedStatement<C> {
    /// The digest of the candidate on whose validity the statement bears: the
    /// candidate it proposes, or the one it calls valid or invalid.
    pub open spec fn validity_target(self, context: &C) -> Option<C::Digest> {
        match self.statement {
            Statement::Candidate(candidate) => Some(context.digest_of(candidate)),
            Statement::Valid(digest) => Some(digest),
            Statement::Invalid(digest) => Some(digest),
            Statement::Available(_) => None,
        }
    }

    /// The digest that the statement votes on, if it is a vote.
    pub open spec fn vote_target(self) -> Option<C::Digest> {
        match self.statement {
            Statement::Candidate(_) => None,
            Statement::Valid(digest) => Some(digest),
            Statement::Invalid(digest) => Some(digest),
            Statement::Available(digest) => Some(digest),
        }
    }

    /// Two statements conflict if one validator signed both, and both are
    /// proposals or both bear on the validity of one candidate.
    pub open spec fn conflicts_with(self, context: &C, other: Self) -> bool {
        &&& context.signer_of(self) is Some
        &&& context.signer_of(self) == context.signer_of(other)
        &&& self.validity_target(context) is Some
        &&& other.validity_target(context) is Some
        &&& (self.validity_target(context) == other.validity_target(context) || (
        self.statement is Candidate && other.statement is Candidate))
    }

    /// Two statements collide if they propose two candidates under one
    /// digest.
    pub open spec fn collides_with(self, context: &C, other: Self) -> bool {
        &&& self.statement matches Statement::Candidate(mine)
        &&& other.statement matches Statement::Candidate(theirs)
        &&& context.digest_of(mine) == context.digest_of(theirs)
        &&& mine != theirs
    }
}

impl<C: Context> RecordView<C> {
    /// Two records are alike if they are of one candidate and one group, the
    /// same validators have voted in both, and both or neither has been
    /// called bad.
    pub open spec fn alike(self, other: Self) -> bool {
        &&& self.group_id == other.group_id
        &&& self.candidate == other.candidate
        &&& self.validity_votes.dom() == other.validity_votes.dom()
        &&& self.availability_votes.dom() == other.availability_votes.dom()
        &&& (self.indicated_bad_by.len() == 0) == (other.indicated_bad_by.len() == 0)
    }
}

impl<C: Context> TableView<C> {
    /// The table has a record of the candidate that the statement votes on,
    /// if the statement is a vote.
    pub open spec fn knows(self, statement: SignedStatement<C>) -> bool {
        statement.vote_target() matches Some(digest) ==> self.records.contains_key(digest)
    }

    /// Two tables are alike if the same validators have proposed the same
    /// digests in both, and they hold records under the same digests, alike
    /// one by one.
    pub open spec fn alike(self, other: Self) -> bool {
        &&& self.proposed.dom() == other.proposed.dom()
        &&& forall|v: C::ValidatorId| #[trigger]
            self.proposed.contains_key(v) ==> self.proposed[v].0 == other.proposed[v].0
        &&& self.records.dom() == other.records.dom()
        &&& forall|d: C::Digest| #[trigger]
            self.records.contains_key(d) ==> self.records[d].alike(other.records[d])
    }
}

/// Tables that are alike put forward the same candidates.
pub proof fn alike_put_forward_the_same<C: Context>(
    a: TableView<C>,
    b: TableView<C>,
    context: &C,
    chosen: Seq<C::Candidate>,
)
    requires
        a.alike(b),
        a.puts_forward(context, chosen),
    ensures
        b.puts_forward(context, chosen),
{
    assert forall|d: C::Digest| a.includable(context, d) == b.includable(context, d) by {
        if a.records.contains_key(d) {
            assert(b.records.contains_key(d));
            assert(a.records[d].alike(b.records[d]));
        }
        if b.records.contains_key(d) {
            assert(a.records.contains_key(d));
            assert(a.records[d].alike(b.records[d]));
        }
    }
    assert forall|d: C::Digest| a.best_of_group(context, d) implies b.best_of_group(
        context,
        d,
    ) by {
        assert(a.includable(context, d));
        assert forall|other: C::Digest|
            #[trigger] b.includable(context, other) && b.records[other].group_id
                == b.records[d].group_id implies !crate::order::before(
            b.records[d].candidate,
            b.records[other].candidate,
        ) by {
            assert(a.includable(context, other));
        }
    }
    assert forall|i: int| 0 <= i < chosen.len() implies {
        &&& b.best_of_group(context, #[trigger] context.digest_of(chosen[i]))
        &&& b.records[context.digest_of(chosen[i])].candidate == chosen[i]
    } by {
        assert(a.best_of_group(context, context.digest_of(chosen[i])));
        assert(a.includable(context, context.digest_of(chosen[i])));
    }
    assert forall|digest: C::Digest| #[trigger] b.includable(context, digest) implies exists|
        i: int,
    |
        0 <= i < chosen.len() && context.group_of(#[trigger] chosen[i])
            == b.records[digest].group_id by {
        assert(a.includable(context, digest));
    }
}

/// Two explicit votes on validity, not both from one validator on one
/// candidate, can be taken in either order.
proof fn lemma_swap_votes<C: Context>(
    table: TableView<C>,
    context: &C,
    v1: C::ValidatorId,
    d1: C::Digest,
    vote1: ValidityVote<C::Signature>,
    v2: C::ValidatorId,
    d2: C::Digest,
    vote2: ValidityVote<C::Signature>,
)
    requires
        !(vote1 is Issued),
        !(vote2 is Issued),
        v1 != v2 || d1 != d2,
    ensures
        table.validity_vote(context, v1, d1, vote1).0.validity_vote(context, v2, d2, vote2).0.alike(
            table.validity_vote(context, v2, d2, vote2).0.validity_vote(context, v1, d1, vote1).0,
        ),
{
    let ab = table.validity_vote(context, v1, d1, vote1).0.validity_vote(context, v2, d2, vote2).0;
    let ba = table.validity_vote(context, v2, d2, vote2).0.validity_vote(context, v1, d1, vote1).0;
    assert(ab.proposed.dom() =~= ba.proposed.dom());
    assert(ab.records.dom() =~= ba.records.dom());
    assert forall|d: C::Digest| #[trigger] ab.records.contains_key(d) implies ab.records[d].alike(
        ba.records[d],
    ) by {
        assert(ab.records[d].validity_votes.dom() =~= ba.records[d].validity_votes.dom());
        assert(ab.records[d].availability_votes.dom() =~= ba.records[d].availability_votes.dom());
    }
}

/// An explicit vote on validity and a vote for availability, both on
/// candidates on record, can be taken in either order.
proof fn lemma_swap_vote_and_availability<C: Context>(
    table: TableView<C>,
    context: &C,
    v1: C::ValidatorId,
    d1: C::Digest,
    vote1: ValidityVote<C::Signature>,
    v2: C::ValidatorId,
    d2: C::Digest,
    signature2: C::Signature,
)
    requires
        !(vote1 is Issued),
    ensures
        table.validity_vote(context, v1, d1, vote1).0.availability_vote(
            context,
            v2,
            d2,
            signature2,
        ).0.alike(
            table.availability_vote(context, v2, d2, signature2).0.validity_vote(
                context,
                v1,
                d1,
                vote1,
            ).0,
        ),
{
    let ab = table.validity_vote(context, v1, d1, vote1).0.availability_vote(
        context,
        v2,
        d2,
        signature2,
    ).0;
    let ba = table.availability_vote(context, v2, d2, signature2).0.validity_vote(
        context,
        v1,
        d1,
        vote1,
    ).0;
    assert(ab.proposed.dom() =~= ba.proposed.dom());
    assert(ab.records.dom() =~= ba.records.dom());
    assert forall|d: C::Digest| #[trigger] ab.records.contains_key(d) implies ab.records[d].alike(
        ba.records[d],
    ) by {
        assert(ab.records[d].validity_votes.dom() =~= ba.records[d].validity_votes.dom());
        assert(ab.records[d].availability_votes.dom() =~= ba.records[d].availability_votes.dom());
    }
}

/// Two votes for availability can be taken in either order.
proof fn lemma_swap_availabilities<C: Context>(
    table: TableView<C>,
    context: &C,
    v1: C::ValidatorId,
    d1: C::Digest,
    signature1: C::Signature,
    v2: C::ValidatorId,
    d2: C::Digest,
    signature2: C::Signature,
)
    ensures
        table.availability_vote(context, v1, d1, signature1).0.availability_vote(
            context,
            v2,
            d2,
            signature2,
        ).0.alike(
            table.availability_vote(context, v2, d2, signature2).0.availability_vote(
                context,
                v1,
                d1,
                signature1,
            ).0,
        ),
{
    let ab = table.availability_vote(context, v1, d1, signature1).0.availability_vote(
        context,
        v2,
        d2,
        signature2,
    ).0;
    let ba = table.availability_vote(context, v2, d2, signature2).0.availability_vote(
        context,
        v1,
        d1,
        signature1,
    ).0;
    assert(ab.proposed.dom() =~= ba.proposed.dom());
    assert(ab.records.dom() =~= ba.records.dom());
    assert forall|d: C::Digest| #[trigger] ab.records.contains_key(d) implies ab.records[d].alike(
        ba.records[d],
    ) by {
        assert(ab.records[d].validity_votes.dom() =~= ba.records[d].validity_votes.dom());
        assert(ab.records[d].availability_votes.dom() =~= ba.records[d].availability_votes.dom());
    }
}

/// A proposal and an explicit vote on the validity of a candidate on record,
/// not both from one validator on one candidate, can be taken in either
/// order.
proof fn lemma_swap_proposal_and_vote<C: Context>(
    table: TableView<C>,
    context: &C,
    v1: C::ValidatorId,
    candidate1: C::Candidate,
    signature1: C::Signature,
    v2: C::ValidatorId,
    d2: C::Digest,
    vote2: ValidityVote<C::Signature>,
)
    requires
        !(vote2 is Issued),
        table.records.contains_key(d2),
        v1 != v2 || context.digest_of(candidate1) != d2,
    ensures
        table.import_candidate(context, v1, candidate1, signature1).0.validity_vote(
            context,
            v2,
            d2,
            vote2,
        ).0.alike(
            table.validity_vote(context, v2, d2, vote2).0.import_candidate(
                context,
                v1,
                candidate1,
                signature1,
            ).0,
        ),
{
    let ab = table.import_candidate(context, v1, candidate1, signature1).0.validity_vote(
        context,
        v2,
        d2,
        vote2,
    ).0;
    let ba = table.validity_vote(context, v2, d2, vote2).0.import_candidate(
        context,
        v1,
        candidate1,
        signature1,
    ).0;
    assert forall|v: C::ValidatorId| #[trigger] ab.proposed.contains_key(v) implies ab.proposed[v].0
        == ba.proposed[v].0 by {}
    assert(ab.proposed.dom() =~= ba.proposed.dom());
    assert(ab.records.dom() =~= ba.records.dom());
    assert forall|d: C::Digest| #[trigger] ab.records.contains_key(d) implies ab.records[d].alike(
        ba.records[d],
    ) by {
        assert(ab.records[d].validity_votes.dom() =~= ba.records[d].validity_votes.dom());
        assert(ab.records[d].availability_votes.dom() =~= ba.records[d].availability_votes.dom());
    }
}

/// A proposal and a vote for the availability of a candidate on record can
/// be taken in either order.
proof fn lemma_swap_proposal_and_availability<C: Context>(
    table: TableView<C>,
    context: &C,
    v1: C::ValidatorId,
    candidate1: C::Candidate,
    signature1: C::Signature,
    v2: C::ValidatorId,
    d2: C::Digest,
    signature2: C::Signature,
)
    requires
        table.records.contains_key(d2),
    ensures
        table.import_candidate(context, v1, candidate1, signature1).0.availability_vote(
            context,
            v2,
            d2,
            signature2,
        ).0.alike(
            table.availability_vote(context, v2, d2, signature2).0.import_candidate(
                context,
                v1,
                candidate1,
                signature1,
            ).0,
        ),
{
    let ab = table.import_candidate(context, v1, candidate1, signature1).0.availability_vote(
        context,
        v2,
        d2,
        signature2,
    ).0;
    let ba = table.availability_vote(context, v2, d2, signature2).0.import_candidate(
        context,
        v1,
        candidate1,
        signature1,
    ).0;
    assert forall|v: C::ValidatorId| #[trigger] ab.proposed.contains_key(v) implies ab.proposed[v].0
        == ba.proposed[v].0 by {}
    assert(ab.proposed.dom() =~= ba.proposed.dom());
    assert(ab.records.dom() =~= ba.records.dom());
    assert forall|d: C::Digest| #[trigger] ab.records.contains_key(d) implies ab.records[d].alike(
        ba.records[d],
    ) by {
        assert(ab.records[d].validity_votes.dom() =~= ba.records[d].validity_votes.dom());
        assert(ab.records[d].availability_votes.dom() =~= ba.records[d].availability_votes.dom());
    }
}

/// Two proposals from two validators, not of two candidates under one
/// digest, can be taken in either order.
proof fn lemma_swap_proposals<C: Context>(
    table: TableView<C>,
    context: &C,
    v1: C::ValidatorId,
    candidate1: C::Candidate,
    signature1: C::Signature,
    v2: C::ValidatorId,
    candidate2: C::Candidate,
    signature2: C::Signature,
)
    requires
        table.wf(context),
        v1 != v2,
        context.digest_of(candidate1) == context.digest_of(candidate2) ==> candidate1 == candidate2,
    ensures
        table.import_candidate(context, v1, candidate1, signature1).0.import_candidate(
            context,
            v2,
            candidate2,
            signature2,
        ).0.alike(
            table.import_candidate(context, v2, candidate2, signature2).0.import_candidate(
                context,
                v1,
                candidate1,
                signature1,
            ).0,
        ),
{
    let ab = table.import_candidate(context, v1, candidate1, signature1).0.import_candidate(
        context,
        v2,
        candidate2,
        signature2,
    ).0;
    let ba = table.import_candidate(context, v2, candidate2, signature2).0.import_candidate(
        context,
        v1,
        candidate1,
        signature1,
    ).0;
    assert forall|v: C::ValidatorId| #[trigger] ab.proposed.contains_key(v) implies ab.proposed[v].0
        == ba.proposed[v].0 by {}
    assert(ab.proposed.dom() =~= ba.proposed.dom());
    assert(ab.records.dom() =~= ba.records.dom());
    assert forall|d: C::Digest| #[trigger] ab.records.contains_key(d) implies ab.records[d].alike(
        ba.records[d],
    ) by {
        assert(ab.records[d].validity_votes.dom() =~= ba.records[d].validity_votes.dom());
        assert(ab.records[d].availability_votes.dom() =~= ba.records[d].availability_votes.dom());
    }
}

/// The core of [`import_order_leaves_alike`], evidence left aside.
proof fn lemma_swap_judged<C: Context>(
    table: TableView<C>,
    context: &C,
    va: C::ValidatorId,
    a: SignedStatement<C>,
    vb: C::ValidatorId,
    b: SignedStatement<C>,
)
    requires
        table.wf(context),
        table.knows(a),
        table.knows(b),
        context.signer_of(a) == Some(va),
        context.signer_of(b) == Some(vb),
        !a.conflicts_with(context, b),
        !a.collides_with(context, b),
    ensures
        table.judge(context, va, a).0.judge(context, vb, b).0.alike(
            table.judge(context, vb, b).0.judge(context, va, a).0,
        ),
{
    let sa = a.signature;
    let sb = b.signature;
    let tab = table.judge(context, va, a).0.judge(context, vb, b).0;
    let tba = table.judge(context, vb, b).0.judge(context, va, a).0;
    match (a.statement, b.statement) {
        (Statement::Candidate(ca), Statement::Candidate(cb)) => {
            lemma_swap_proposals(table, context, va, ca, sa, vb, cb, sb);
        },
        (Statement::Candidate(ca), Statement::Valid(db)) => {
            lemma_swap_proposal_and_vote(
                table,
                context,
                va,
                ca,
                sa,
                vb,
                db,
                ValidityVote::Valid(sb),
            );
        },
        (Statement::Candidate(ca), Statement::Invalid(db)) => {
            lemma_swap_proposal_and_vote(
                table,
                context,
                va,
                ca,
                sa,
                vb,
                db,
                ValidityVote::Invalid(sb),
            );
        },
        (Statement::Candidate(ca), Statement::Available(db)) => {
            lemma_swap_proposal_and_availability(table, context, va, ca, sa, vb, db, sb);
        },
        (Statement::Valid(da), Statement::Candidate(cb)) => {
            lemma_swap_proposal_and_vote(
                table,
                context,
                vb,
                cb,
                sb,
                va,
                da,
                ValidityVote::Valid(sa),
            );
            alike_is_symmetric(tba, tab);
        },
        (Statement::Invalid(da), Statement::Candidate(cb)) => {
            lemma_swap_proposal_and_vote(
                table,
                context,
                vb,
                cb,
                sb,
                va,
                da,
                ValidityVote::Invalid(sa),
            );
            alike_is_symmetric(tba, tab);
        },
        (Statement::Available(da), Statement::Candidate(cb)) => {
            lemma_swap_proposal_and_availability(table, context, vb, cb, sb, va, da, sa);
            alike_is_symmetric(tba, tab);
        },
        (Statement::Valid(da), Statement::Valid(db)) => {
            lemma_swap_votes(
                table,
                context,
                va,
                da,
                ValidityVote::Valid(sa),
                vb,
                db,
                ValidityVote::Valid(sb),
            );
        },
        (Statement::Valid(da), Statement::Invalid(db)) => {
            lemma_swap_votes(
                table,
                context,
                va,
                da,
                ValidityVote::Valid(sa),
                vb,
                db,
                ValidityVote::Invalid(sb),
            );
        },
        (Statement::Invalid(da), Statement::Valid(db)) => {
            lemma_swap_votes(
                table,
                context,
                va,
                da,
                ValidityVote::Invalid(sa),
                vb,
                db,
                ValidityVote::Valid(sb),
            );
        },
        (Statement::Invalid(da), Statement::Invalid(db)) => {
            lemma_swap_votes(
                table,
                context,
                va,
                da,
                ValidityVote::Invalid(sa),
                vb,
                db,
                ValidityVote::Invalid(sb),
            );
        },
        (Statement::Valid(da), Statement::Available(db)) => {
            lemma_swap_vote_and_availability(
                table,
                context,
                va,
                da,
                ValidityVote::Valid(sa),
                vb,
                db,
                sb,
            );
        },
        (Statement::Invalid(da), Statement::Available(db)) => {
            lemma_swap_vote_and_availability(
                table,
                context,
                va,
                da,
                ValidityVote::Invalid(sa),
                vb,
                db,
                sb,
            );
        },
        (Statement::Available(da), Statement::Valid(db)) => {
            lemma_swap_vote_and_availability(
                table,
                context,
                vb,
                db,
                ValidityVote::Valid(sb),
                va,
                da,
                sa,
            );
            alike_is_symmetric(tba, tab);
        },
        (Statement::Available(da), Statement::Invalid(db)) => {
            lemma_swap_vote_and_availability(
                table,
                context,
                vb,
                db,
                ValidityVote::Invalid(sb),
                va,
                da,
                sa,
            );
            alike_is_symmetric(tba, tab);
        },
        (Statement::Available(da), Statement::Available(db)) => {
            lemma_swap_availabilities(table, context, va, da, sa, vb, db, sb);
        },
    }
}

/// Likeness goes both ways.
pub proof fn alike_is_symmetric<C: Context>(a: TableView<C>, b: TableView<C>)
    requires
        a.alike(b),
    ensures
        b.alike(a),
{
    assert forall|d: C::Digest| #[trigger] b.records.contains_key(d) implies b.records[d].alike(
        a.records[d],
    ) by {
        assert(a.records.contains_key(d));
    }
    assert forall|v: C::ValidatorId| #[trigger] b.proposed.contains_key(v) implies b.proposed[v].0
        == a.proposed[v].0 by {
        assert(a.proposed.contains_key(v));
    }
}

/// What a statement does to the proposals and the records of a table does
/// not depend on the evidence in the table.
proof fn lemma_judge_ignores_misbehavior<C: Context>(
    table: TableView<C>,
    context: &C,
    signer: C::ValidatorId,
    statement: SignedStatement<C>,
    misbehavior: Map<C::ValidatorId, Misbehavior<C>>,
)
    ensures
        (TableView { misbehavior, ..table }).judge(context, signer, statement).0.proposed
            == table.judge(context, signer, statement).0.proposed,
        (TableView { misbehavior, ..table }).judge(context, signer, statement).0.records
            == table.judge(context, signer, statement).0.records,
        (TableView { misbehavior, ..table }).judge(context, signer, statement).1 == table.judge(
            context,
            signer,
            statement,
        ).1,
{
}

/// Two statements that do not conflict or collide, and that vote only on
/// candidates the table has on record, can be imported in either order: the
/// tables that result are alike.
pub proof fn import_order_leaves_alike<C: Context>(
    table: TableView<C>,
    context: &C,
    a: SignedStatement<C>,
    b: SignedStatement<C>,
)
    requires
        table.wf(context),
        table.knows(a),
        table.knows(b),
        !a.conflicts_with(context, b),
        !a.collides_with(context, b),
    ensures
        table.import(context, a).import(context, b).alike(
            table.import(context, b).import(context, a),
        ),
{
    let ab = table.import(context, a).import(context, b);
    let ba = table.import(context, b).import(context, a);
    match (context.signer_of(a), context.signer_of(b)) {
        (Some(va), Some(vb)) => {
            let (ta, ea) = table.judge(context, va, a);
            let (tb, eb) = table.judge(context, vb, b);
            let tab = ta.judge(context, vb, b).0;
            let tba = tb.judge(context, va, a).0;
            lemma_judge_ignores_misbehavior(
                ta,
                context,
                vb,
                b,
                ta.with_misbehavior(va, ea).misbehavior,
            );
            lemma_judge_ignores_misbehavior(
                tb,
                context,
                va,
                a,
                tb.with_misbehavior(vb, eb).misbehavior,
            );
            assert(ta.with_misbehavior(va, ea) == TableView {
                misbehavior: ta.with_misbehavior(va, ea).misbehavior,
                ..ta
            });
            assert(tb.with_misbehavior(vb, eb) == TableView {
                misbehavior: tb.with_misbehavior(vb, eb).misbehavior,
                ..tb
            });
            assert(ab.proposed == tab.proposed && ab.records == tab.records);
            assert(ba.proposed == tba.proposed && ba.records == tba.records);
            lemma_swap_judged(table, context, va, a, vb, b);
        },
        _ => {},
    }
}

/// A table is like itself.
pub proof fn alike_is_reflexive<C: Context>(a: TableView<C>)
    ensures
        a.alike(a),
{
}

/// Tables alike to one table are alike.
pub proof fn alike_is_transitive<C: Context>(a: TableView<C>, b: TableView<C>, c: TableView<C>)
    requires
        a.alike(b),
        b.alike(c),
    ensures
        a.alike(c),
{
    assert forall|d: C::Digest| #[trigger] a.records.contains_key(d) implies a.records[d].alike(
        c.records[d],
    ) by {
        assert(b.records.contains_key(d));
    }
    assert forall|v: C::ValidatorId| #[trigger] a.proposed.contains_key(v) implies a.proposed[v].0
        == c.proposed[v].0 by {
        assert(b.proposed.contains_key(v));
    }
}

/// A statement does to tables that are alike what leaves them alike.
pub proof fn import_keeps_alike<C: Context>(
    a: TableView<C>,
    b: TableView<C>,
    context: &C,
    statement: SignedStatement<C>,
)
    requires
        a.alike(b),
    ensures
        a.import(context, statement).alike(b.import(context, statement)),
{
    let x = a.import(context, statement);
    let y = b.import(context, statement);
    if let Some(signer) = context.signer_of(statement) {
        match statement.statement {
            Statement::Candidate(candidate) => {
                let digest = context.digest_of(candidate);
                assert(a.proposed.contains_key(signer) == b.proposed.contains_key(signer));
                assert(a.records.contains_key(digest) == b.records.contains_key(digest));
                if a.records.contains_key(digest) {
                    assert(a.records[digest].alike(b.records[digest]));
                }
            },
            Statement::Valid(digest) => {
                assert(a.records.contains_key(digest) == b.records.contains_key(digest));
                if a.records.contains_key(digest) {
                    assert(a.records[digest].alike(b.records[digest]));
                }
            },
            Statement::Invalid(digest) => {
                assert(a.records.contains_key(digest) == b.records.contains_key(digest));
                if a.records.contains_key(digest) {
                    assert(a.records[digest].alike(b.records[digest]));
                }
            },
            Statement::Available(digest) => {
                assert(a.records.contains_key(digest) == b.records.contains_key(digest));
                if a.records.contains_key(digest) {
                    assert(a.records[digest].alike(b.records[digest]));
                }
            },
        }
    }
    assert(x.proposed.dom() =~= y.proposed.dom());
    assert(x.records.dom() =~= y.records.dom());
    assert forall|d: C::Digest| #[trigger] x.records.contains_key(d) implies x.records[d].alike(
        y.records[d],
    ) by {
        if a.records.contains_key(d) {
            assert(a.records[d].alike(b.records[d]));
        }
        assert(x.records[d].validity_votes.dom() =~= y.records[d].validity_votes.dom());
        assert(x.records[d].availability_votes.dom() =~= y.records[d].availability_votes.dom());
    }
}

impl<C: Context> SignedStatement<C> {
    /// Two statements are compatible if they are one statement, or neither
    /// conflict nor collide.
    pub open spec fn compatible_with(self, context: &C, other: Self) -> bool {
        self == other || (!self.conflicts_with(context, other) && !self.collides_with(
            context,
            other,
        ))
    }
}

impl<C: Context> TableView<C> {
    /// The statements can be imported into the table in any order: they vote
    /// only on candidates that the table has on record, and any two of them
    /// are compatible.
    pub open spec fn can_reorder(self, context: &C, statements: Seq<SignedStatement<C>>) -> bool {
        &&& forall|i: int| 0 <= i < statements.len() ==> self.knows(#[trigger] statements[i])
        &&& forall|i: int, j: int|
            0 <= i < statements.len() && 0 <= j < statements.len() ==> (
            #[trigger] statements[i]).compatible_with(context, #[trigger] statements[j])
    }
}

/// A record, once in the table, stays.
proof fn lemma_import_all_keeps_records<C: Context>(
    table: TableView<C>,
    context: &C,
    statements: Seq<SignedStatement<C>>,
    digest: C::Digest,
)
    requires
        table.records.contains_key(digest),
    ensures
        table.import_all(context, statements).records.contains_key(digest),
    decreases statements.len(),
{
    if statements.len() > 0 {
        lemma_import_all_keeps_records(table, context, statements.drop_last(), digest);
    }
}

/// Importing a run of statements and then one more is importing the longer
/// run.
proof fn lemma_import_all_push<C: Context>(
    table: TableView<C>,
    context: &C,
    statements: Seq<SignedStatement<C>>,
    last: SignedStatement<C>,
)
    ensures
        table.import_all(context, statements.push(last)) == table.import_all(
            context,
            statements,
        ).import(context, last),
{
    assert(statements.push(last).drop_last() =~= statements);
}

/// In a run of statements that can be reordered, any one of them can be
/// imported last instead.
proof fn lemma_import_last_instead<C: Context>(
    table: TableView<C>,
    context: &C,
    statements: Seq<SignedStatement<C>>,
    k: int,
)
    requires
        table.wf(context),
        table.can_reorder(context, statements),
        0 <= k < statements.len(),
    ensures
        table.import_all(context, statements).alike(
            table.import_all(context, statements.remove(k).push(statements[k])),
        ),
    decreases statements.len(),
{
    let moved = statements[k];
    if k == statements.len() - 1 {
        assert(statements.remove(k).push(moved) =~= statements);
        alike_is_reflexive(table.import_all(context, statements));
    } else {
        let last = statements.last();
        let rest = statements.drop_last();
        let others = rest.remove(k);
        assert(rest[k] == moved);
        assert(table.can_reorder(context, rest)) by {
            assert forall|i: int| 0 <= i < rest.len() implies rest[i] == statements[i] by {}
        }
        lemma_import_last_instead(table, context, rest, k);
        // the run, with `moved` brought to the end of all but the last
        let before = table.import_all(context, others);
        lemma_import_all_push(table, context, others, moved);
        import_keeps_alike(
            table.import_all(context, rest),
            before.import(context, moved),
            context,
            last,
        );
        // `moved` and the last change places
        import_all_keeps_wf(table, context, others);
        assert(before.knows(moved) && before.knows(last)) by {
            assert(table.knows(statements[k]));
            assert(table.knows(statements[statements.len() - 1]));
            if let Some(digest) = moved.vote_target() {
                lemma_import_all_keeps_records(table, context, others, digest);
            }
            if let Some(digest) = last.vote_target() {
                lemma_import_all_keeps_records(table, context, others, digest);
            }
        }
        assert(moved.compatible_with(context, last)) by {
            assert(statements[k].compatible_with(context, statements[statements.len() - 1]));
        }
        if moved == last {
            alike_is_reflexive(before.import(context, moved).import(context, last));
        } else {
            import_order_leaves_alike(before, context, moved, last);
        }
        alike_is_transitive(
            table.import_all(context, statements),
            before.import(context, moved).import(context, last),
            before.import(context, last).import(context, moved),
        );
        lemma_import_all_push(table, context, others, last);
        lemma_import_all_push(table, context, others.push(last), moved);
        assert(others.push(last) =~= statements.remove(k));
    }
}

/// Statements that can be reordered lead to tables that are alike, in
/// whatever order they are imported.
pub proof fn reordered_imports_leave_alike<C: Context>(
    table: TableView<C>,
    context: &C,
    one_way: Seq<SignedStatement<C>>,
    another: Seq<SignedStatement<C>>,
)
    requires
        table.wf(context),
        table.can_reorder(context, one_way),
        one_way.to_multiset() == another.to_multiset(),
    ensures
        table.import_all(context, one_way).alike(table.import_all(context, another)),
    decreases another.len(),
{
    one_way.to_multiset_ensures();
    another.to_multiset_ensures();
    if another.len() == 0 {
        assert(one_way.len() == 0);
        alike_is_reflexive(table);
    } else {
        let last = another.last();
        let rest = another.drop_last();
        assert(another.contains(last)) by {
            assert(another[another.len() - 1] == last);
        }
        assert(one_way.contains(last)) by {
            assert(another.to_multiset().count(last) > 0);
            assert(one_way.to_multiset().count(last) > 0);
        }
        let k = choose|k: int| 0 <= k < one_way.len() && one_way[k] == last;
        let others = one_way.remove(k);
        lemma_import_last_instead(table, context, one_way, k);
        assert(others.to_multiset() =~= rest.to_multiset()) by {
            rest.to_multiset_ensures();
            assert(another =~= rest.push(last));
            assert(others.to_multiset() == one_way.to_multiset().remove(last));
            assert(another.to_multiset() == rest.to_multiset().insert(last));
        }
        assert(table.can_reorder(context, others)) by {
            assert forall|i: int| 0 <= i < others.len() implies others[i] == one_way[if i < k {
                i
            } else {
                i + 1
            }] by {}
        }
        reordered_imports_leave_alike(table, context, others, rest);
        import_keeps_alike(
            table.import_all(context, others),
            table.import_all(context, rest),
            context,
            last,
        );
        lemma_import_all_push(table, context, others, last);
        assert(another =~= rest.push(last));
        lemma_import_all_push(table, context, rest, last);
        alike_is_transitive(
            table.import_all(context, one_way),
            table.import_all(context, others.push(last)),
            table.import_all(context, another),
        );
    }
}

/// A statement that comes twice in a run of statements that can be reordered
/// can be left out the second time.
proof fn lemma_repeat_can_be_left_out<C: Context>(
    table: TableView<C>,
    context: &C,
    statements: Seq<SignedStatement<C>>,
    k: int,
    m: int,
)
    requires
        table.wf(context),
        table.can_reorder(context, statements),
        0 <= k < m < statements.len(),
        statements[k] == statements[m],
    ensures
        table.import_all(context, statements).alike(
            table.import_all(context, statements.remove(m)),
        ),
{
    let repeated = statements[m];
    let once = statements.remove(m);
    let never = once.remove(k);
    assert(once[k] == repeated);
    assert(table.can_reorder(context, once)) by {
        assert forall|i: int| 0 <= i < once.len() implies once[i] == statements[if i < m {
            i
        } else {
            i + 1
        }] by {}
    }
    // the second of the two is imported last instead, and so is the first
    lemma_import_last_instead(table, context, statements, m);
    lemma_import_last_instead(table, context, once, k);
    lemma_import_all_push(table, context, once, repeated);
    lemma_import_all_push(table, context, never, repeated);
    let before = table.import_all(context, never);
    import_keeps_alike(
        table.import_all(context, once),
        before.import(context, repeated),
        context,
        repeated,
    );
    // twice at the end is once at the end
    import_is_idempotent(before, context, repeated);
    alike_is_symmetric(table.import_all(context, once), before.import(context, repeated));
    alike_is_transitive(
        table.import_all(context, statements),
        table.import_all(context, once).import(context, repeated),
        before.import(context, repeated),
    );
    alike_is_transitive(
        table.import_all(context, statements),
        before.import(context, repeated),
        table.import_all(context, once),
    );
}

/// A run of statements that can be reordered leads to a table like the one
/// that the same statements lead to when each is imported once.
proof fn lemma_without_repeats<C: Context>(
    table: TableView<C>,
    context: &C,
    statements: Seq<SignedStatement<C>>,
) -> (distinct: Seq<SignedStatement<C>>)
    requires
        table.wf(context),
        table.can_reorder(context, statements),
    ensures
        distinct.no_duplicates(),
        distinct.to_set() == statements.to_set(),
        table.can_reorder(context, distinct),
        table.import_all(context, statements).alike(table.import_all(context, distinct)),
    decreases statements.len(),
{
    if statements.no_duplicates() {
        alike_is_reflexive(table.import_all(context, statements));
        statements
    } else {
        let (k, m) = choose|k: int, m: int|
            0 <= k < statements.len() && 0 <= m < statements.len() && k != m && statements[k]
                == statements[m];
        let (k, m) = if k < m {
            (k, m)
        } else {
            (m, k)
        };
        let once = statements.remove(m);
        lemma_repeat_can_be_left_out(table, context, statements, k, m);
        assert(table.can_reorder(context, once)) by {
            assert forall|i: int| 0 <= i < once.len() implies once[i] == statements[if i < m {
                i
            } else {
                i + 1
            }] by {}
        }
        assert(once.to_set() =~= statements.to_set()) by {
            assert forall|x: SignedStatement<C>| once.contains(x) <==> statements.contains(x) by {
                if once.contains(x) {
                    let i = choose|i: int| 0 <= i < once.len() && once[i] == x;
                    assert(statements[if i < m {
                        i
                    } else {
                        i + 1
                    }] == x);
                }
                if statements.contains(x) {
                    let i = choose|i: int| 0 <= i < statements.len() && statements[i] == x;
                    if i < m {
                        assert(once[i] == x);
                    } else if i == m {
                        assert(once[k] == x);
                    } else {
                        assert(once[i - 1] == x);
                    }
                }
            }
        }
        let distinct = lemma_without_repeats(table, context, once);
        alike_is_transitive(
            table.import_all(context, statements),
            table.import_all(context, once),
            table.import_all(context, distinct),
        );
        distinct
    }
}

/// Runs of the same statements lead to tables that are alike, whatever the
/// order of the statements and however often each of them comes, if the
/// statements can be reordered.
pub proof fn same_statements_leave_alike<C: Context>(
    table: TableView<C>,
    context: &C,
    one_way: Seq<SignedStatement<C>>,
    another: Seq<SignedStatement<C>>,
)
    requires
        table.wf(context),
        table.can_reorder(context, one_way),
        one_way.to_set() == another.to_set(),
    ensures
        table.import_all(context, one_way).alike(table.import_all(context, another)),
{
    assert(table.can_reorder(context, another)) by {
        assert forall|i: int| 0 <= i < another.len() implies one_way.contains(
            #[trigger] another[i],
        ) by {
            assert(another.to_set().contains(another[i]));
            assert(one_way.to_set().contains(another[i]));
        }
        assert forall|i: int| 0 <= i < another.len() implies table.knows(
            #[trigger] another[i],
        ) by {
            let k = choose|k: int| 0 <= k < one_way.len() && one_way[k] == another[i];
            assert(table.knows(one_way[k]));
        }
        assert forall|i: int, j: int| 0 <= i < another.len() && 0 <= j < another.len() implies (
        #[trigger] another[i]).compatible_with(context, #[trigger] another[j]) by {
            let k = choose|k: int| 0 <= k < one_way.len() && one_way[k] == another[i];
            let m = choose|m: int| 0 <= m < one_way.len() && one_way[m] == another[j];
            assert(one_way[k].compatible_with(context, one_way[m]));
        }
    }
    let left = lemma_without_repeats(table, context, one_way);
    let right = lemma_without_repeats(table, context, another);
    assert(left.to_multiset() =~= right.to_multiset()) by {
        left.lemma_multiset_has_no_duplicates();
        right.lemma_multiset_has_no_duplicates();
        left.to_multiset_ensures();
        right.to_multiset_ensures();
        assert forall|x: SignedStatement<C>| left.to_multiset().count(x) == right.to_multiset().count(
            x,
        ) by {
            assert(left.contains(x) == left.to_set().contains(x));
            assert(right.contains(x) == right.to_set().contains(x));
            assert(left.contains(x) <==> left.to_multiset().count(x) > 0);
            assert(right.contains(x) <==> right.to_multiset().count(x) > 0);
        }
    }
    reordered_imports_leave_alike(table, context, left, right);
    alike_is_transitive(
        table.import_all(context, one_way),
        table.import_all(context, left),
        table.import_all(context, right),
    );
    alike_is_symmetric(table.import_all(context, another), table.import_all(context, right));
    alike_is_transitive(
        table.import_all(context, one_way),
        table.import_all(context, right),
        table.import_all(context, another),
    );
}

/// What a table puts forward depends on which statements it came to hear of,
/// and not on their order or on how often it heard each, if the statements
/// can be reordered.
pub proof fn order_of_imports_is_immaterial<C: Context>(
    table: TableView<C>,
    context: &C,
    one_way: Seq<SignedStatement<C>>,
    another: Seq<SignedStatement<C>>,
    chosen: Seq<C::Candidate>,
)
    requires
        table.wf(context),
        table.can_reorder(context, one_way),
        one_way.to_set() == another.to_set(),
        table.import_all(context, one_way).puts_forward(context, chosen),
    ensures
        table.import_all(context, another).puts_forward(context, chosen),
{
    same_statements_leave_alike(table, context, one_way, another);
    alike_put_forward_the_same(
        table.import_all(context, one_way),
        table.import_all(context, another),
        context,
        chosen,
    );
}

} // verus!
