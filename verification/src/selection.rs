//! Which candidates a table puts forward.

use vstd::prelude::*;
use crate::context::Context;
use crate::model::TableView;
use crate::order::{
    before, increasing, lemma_increasing_is_unique, lemma_strictly_ordered,
};
use crate::record::RecordView;

verus! {

impl<C: Context> TableView<C> {
    /// The table holds a record under `digest`, and the candidate on record
    /// can be included: nobody has called it bad, and it has the votes that
    /// the context asks for in its group.
    pub open spec fn includable(self, context: &C, digest: C::Digest) -> bool {
        &&& self.records.contains_key(digest)
        &&& self.records[digest].includable(
            context.thresholds(self.records[digest].group_id).0,
            context.thresholds(self.records[digest].group_id).1,
        )
    }

    /// The candidate on record under `digest` can be included, and no
    /// candidate of its group that can be included comes after it.
    pub open spec fn best_of_group(self, context: &C, digest: C::Digest) -> bool {
        &&& self.includable(context, digest)
        &&& forall|other: C::Digest|
            #[trigger] self.includable(context, other) && self.records[other].group_id
                == self.records[digest].group_id ==> !before(
                self.records[digest].candidate,
                self.records[other].candidate,
            )
    }

    /// `found` lists the records of the candidates meant for `group_id`:
    /// every one of them, once.
    pub open spec fn lists_group(self, group_id: C::GroupId, found: Seq<RecordView<C>>) -> bool {
        exists|digests: Seq<C::Digest>|
            {
                &&& digests.no_duplicates()
                &&& digests.len() == found.len()
                &&& forall|i: int|
                    0 <= i < digests.len() ==> {
                        &&& self.records.contains_key(#[trigger] digests[i])
                        &&& self.records[digests[i]] == found[i]
                        &&& found[i].group_id == group_id
                    }
                &&& forall|digest: C::Digest|
                    #[trigger] self.records.contains_key(digest) && self.records[digest].group_id
                        == group_id ==> digests.contains(digest)
            }
    }

    /// `chosen` is what the table puts forward: the best candidate of every
    /// group that has a candidate to include, and nothing else, in the order
    /// of the groups.
    pub open spec fn puts_forward(self, context: &C, chosen: Seq<C::Candidate>) -> bool {
        &&& forall|i: int|
            0 <= i < chosen.len() ==> {
                &&& self.best_of_group(context, #[trigger] context.digest_of(chosen[i]))
                &&& self.records[context.digest_of(chosen[i])].candidate == chosen[i]
            }
        &&& forall|digest: C::Digest| #[trigger]
            self.includable(context, digest) ==> exists|i: int|
                0 <= i < chosen.len() && context.group_of(#[trigger] chosen[i])
                    == self.records[digest].group_id
        &&& forall|i: int, j: int|
            0 <= i < j < chosen.len() ==> before(
                context.group_of(#[trigger] chosen[i]),
                context.group_of(#[trigger] chosen[j]),
            )
    }
}

/// A candidate on record is put forward if and only if it is the best of its
/// group.
pub proof fn put_forward_are_the_best<C: Context>(
    table: TableView<C>,
    context: &C,
    chosen: Seq<C::Candidate>,
    digest: C::Digest,
)
    requires
        table.wf(context),
        table.puts_forward(context, chosen),
        table.records.contains_key(digest),
    ensures
        chosen.contains(table.records[digest].candidate) <==> table.best_of_group(context, digest),
{
    let candidate = table.records[digest].candidate;
    if chosen.contains(candidate) {
        let i = choose|i: int| 0 <= i < chosen.len() && chosen[i] == candidate;
        assert(context.digest_of(chosen[i]) == digest);
    }
    if table.best_of_group(context, digest) {
        assert(table.includable(context, digest));
        let i = choose|i: int|
            0 <= i < chosen.len() && context.group_of(#[trigger] chosen[i])
                == table.records[digest].group_id;
        let other = context.digest_of(chosen[i]);
        assert(table.best_of_group(context, other));
        assert(table.includable(context, other));
        C::values_are_plain();
        lemma_strictly_ordered::<C::Candidate>();
        assert(!before(candidate, chosen[i]));
        assert(!before(chosen[i], candidate));
        assert(chosen[i] == candidate);
    }
}

/// Where no two candidates of one group can be included, a candidate on
/// record is put forward if and only if it can be included.
pub proof fn put_forward_are_the_includable<C: Context>(
    table: TableView<C>,
    context: &C,
    chosen: Seq<C::Candidate>,
    digest: C::Digest,
)
    requires
        table.wf(context),
        table.puts_forward(context, chosen),
        table.records.contains_key(digest),
        forall|a: C::Digest, b: C::Digest|
            #[trigger] table.includable(context, a) && #[trigger] table.includable(context, b)
                && table.records[a].group_id == table.records[b].group_id ==> a == b,
    ensures
        chosen.contains(table.records[digest].candidate) <==> table.includable(context, digest),
{
    put_forward_are_the_best(table, context, chosen, digest);
    if table.includable(context, digest) {
        C::values_are_plain();
        lemma_strictly_ordered::<C::Candidate>();
        assert(table.best_of_group(context, digest));
    }
}

/// The best candidates of one group are one candidate.
pub proof fn best_of_group_is_unique<C: Context>(
    table: TableView<C>,
    context: &C,
    a: C::Digest,
    b: C::Digest,
)
    requires
        table.best_of_group(context, a),
        table.best_of_group(context, b),
        table.records[a].group_id == table.records[b].group_id,
    ensures
        table.records[a].candidate == table.records[b].candidate,
{
    C::values_are_plain();
    lemma_strictly_ordered::<C::Candidate>();
    assert(table.includable(context, a));
    assert(table.includable(context, b));
    assert(!before(table.records[a].candidate, table.records[b].candidate));
    assert(!before(table.records[b].candidate, table.records[a].candidate));
}

/// The groups of the candidates that are put forward, in their order.
pub open spec fn groups_of<C: Context>(context: &C, chosen: Seq<C::Candidate>) -> Seq<C::GroupId> {
    Seq::new(chosen.len(), |i: int| context.group_of(chosen[i]))
}

/// Whatever a table puts forward, it is for the same groups.
proof fn lemma_same_groups<C: Context>(
    table: TableView<C>,
    context: &C,
    a: Seq<C::Candidate>,
    b: Seq<C::Candidate>,
)
    requires
        table.wf(context),
        table.puts_forward(context, a),
        table.puts_forward(context, b),
    ensures
        forall|g: C::GroupId| groups_of(context, a).contains(g) ==> groups_of(context, b).contains(g),
        increasing(groups_of(context, a)),
{
    let groups_a = groups_of(context, a);
    let groups_b = groups_of(context, b);
    assert forall|g: C::GroupId| groups_a.contains(g) implies groups_b.contains(g) by {
        let i = choose|i: int| 0 <= i < groups_a.len() && groups_a[i] == g;
        let digest = context.digest_of(a[i]);
        assert(table.best_of_group(context, digest));
        assert(table.includable(context, digest));
        let j = choose|j: int|
            0 <= j < b.len() && context.group_of(#[trigger] b[j]) == table.records[digest].group_id;
        assert(groups_b[j] == g);
    }
    assert forall|i: int, j: int| 0 <= i < j < groups_a.len() implies before(
        #[trigger] groups_a[i],
        #[trigger] groups_a[j],
    ) by {
        assert(before(context.group_of(a[i]), context.group_of(a[j])));
    }
}

/// A table puts forward one sequence of candidates and no other.
pub proof fn what_is_put_forward_is_unique<C: Context>(
    table: TableView<C>,
    context: &C,
    a: Seq<C::Candidate>,
    b: Seq<C::Candidate>,
)
    requires
        table.wf(context),
        table.puts_forward(context, a),
        table.puts_forward(context, b),
    ensures
        a == b,
{
    let groups_a = groups_of(context, a);
    let groups_b = groups_of(context, b);
    lemma_same_groups(table, context, a, b);
    lemma_same_groups(table, context, b, a);
    assert(groups_a == groups_b) by {
        C::values_are_plain();
        lemma_strictly_ordered::<C::GroupId>();
        lemma_increasing_is_unique(groups_a, groups_b);
    }
    assert(a.len() == b.len()) by {
        assert(groups_a.len() == a.len());
        assert(groups_b.len() == b.len());
    }
    assert forall|i: int| 0 <= i < a.len() implies a[i] == b[i] by {
        assert(groups_a[i] == groups_b[i]);
        assert(context.group_of(a[i]) == context.group_of(b[i]));
        best_of_group_is_unique(table, context, context.digest_of(a[i]), context.digest_of(b[i]));
    }
    assert(a =~= b);
}

} // verus!
