//! The ingress queue of a parachain.
//!
//! Each parachain produces a list of "egress" posts of messages for each
//! other parachain on each block. A collator gathers, from every parachain
//! it routes from, the egress posts that have not been routed yet, the
//! oldest first, and consolidates them into one queue: posts of one age
//! together, the oldest age first, counted back from the latest post of
//! each parachain, and within one age in the order of the parachains.

use std::collections::BTreeMap;
use vstd::prelude::*;
use vstd::std_specs::btree::increasing_seq;
use vstd::std_specs::iter::IteratorSpec;
use crate::order::{lemma_ranks_are_ordered, lemma_ranks_in_order, ranks_before};

verus! {

/// Unique identifier of a parachain.
pub type ParaId = u32;

/// The rank of a post in the consolidated queue: how far back it lies from
/// the latest post of its parachain, as a number that is zero for the latest
/// and less for the ones before; and its parachain.
pub open spec fn rank<M>(fetched: Seq<(ParaId, Vec<M>)>, queue: int, place: int) -> (int, ParaId) {
    (place - (fetched[queue].1@.len() - 1), fetched[queue].0)
}

/// `ingress` holds the posts of the queues in `fetched`, each with its
/// parachain, every one of them once, in the order of their ranks.
pub open spec fn consolidates<M>(fetched: Seq<(ParaId, Vec<M>)>, ingress: Seq<(ParaId, M)>) -> bool {
    exists|origin: Seq<(int, int)>|
        {
            &&& origin.len() == ingress.len()
            &&& forall|i: int|
                0 <= i < origin.len() ==> {
                    &&& 0 <= (#[trigger] origin[i]).0 < fetched.len()
                    &&& 0 <= origin[i].1 < fetched[origin[i].0].1@.len()
                    &&& ingress[i] == (fetched[origin[i].0].0, fetched[origin[i].0].1@[origin[i].1])
                }
            &&& forall|i: int, j: int|
                0 <= i < j < origin.len() ==> ranks_before(
                    rank(fetched, (#[trigger] origin[i]).0, origin[i].1),
                    rank(fetched, (#[trigger] origin[j]).0, origin[j].1),
                )
            &&& forall|queue: int, place: int|
                0 <= queue < fetched.len() && 0 <= place < fetched[queue].1@.len()
                    ==> #[trigger] origin.contains((queue, place))
        }
}

/// Consolidate the egress queues fetched from the routing parachains, each
/// with the oldest post first, into the ingress queue.
pub fn consolidate<M>(fetched: Vec<(ParaId, Vec<M>)>) -> (ingress: Vec<(ParaId, M)>)
    requires
        forall|i: int, j: int|
            0 <= i < j < fetched@.len() ==> (#[trigger] fetched@[i]).0 != (#[trigger] fetched@[j]).0,
        forall|i: int| 0 <= i < fetched@.len() ==> (#[trigger] fetched@[i]).1@.len() <= i64::MAX,
    ensures
        consolidates(fetched@, ingress@),
{
    let ghost all = fetched@;
    let mut fetched = fetched;
    // a map ordered first by the depth of the egress queue and then by the
    // parachain ID.
    let mut ordered: BTreeMap<(i64, ParaId), M> = BTreeMap::new();
    let ghost mut source: Map<(i64, ParaId), (int, int)> = Map::empty();
    proof {
        lemma_ranks_are_ordered();
    }
    while fetched.len() > 0
        invariant
            forall|i: int, j: int|
                0 <= i < j < all.len() ==> (#[trigger] all[i]).0 != (#[trigger] all[j]).0,
            forall|i: int| 0 <= i < all.len() ==> (#[trigger] all[i]).1@.len() <= i64::MAX,
            fetched@.len() <= all.len(),
            fetched@ == all.take(fetched@.len() as int),
            ordered@.dom() == source.dom(),
            forall|key: (i64, ParaId)| #[trigger]
                source.contains_key(key) ==> {
                    let (queue, place) = source[key];
                    &&& fetched@.len() <= queue < all.len()
                    &&& 0 <= place < all[queue].1@.len()
                    &&& (key.0 as int, key.1) == rank(all, queue, place)
                    &&& ordered@[key] == all[queue].1@[place]
                },
            forall|queue: int, place: int|
                fetched@.len() <= queue < all.len() && 0 <= place < all[queue].1@.len() ==> {
                    let key = #[trigger] rank(all, queue, place);
                    &&& source.contains_key(((key.0) as i64, key.1))
                    &&& source[((key.0) as i64, key.1)] == (queue, place)
                },
        decreases fetched.len(),
    {
        let ghost queue = fetched@.len() - 1;
        let (routing_id, mut egresses) = fetched.pop().unwrap();
        proof {
            lemma_ranks_are_ordered();
            assert(fetched@ =~= all.take(queue));
            assert(all[queue] == (routing_id, egresses));
        }
        let ghost posts = egresses@;
        let mut depth: i64 = 0;
        while egresses.len() > 0
            invariant
                0 <= queue < all.len(),
                all[queue].0 == routing_id,
                all[queue].1@ == posts,
                posts.len() <= i64::MAX,
                forall|i: int, j: int|
                    0 <= i < j < all.len() ==> (#[trigger] all[i]).0 != (#[trigger] all[j]).0,
                egresses@.len() <= posts.len(),
                egresses@ == posts.take(egresses@.len() as int),
                depth == egresses@.len() - posts.len(),
                ordered@.dom() == source.dom(),
                forall|key: (i64, ParaId)| #[trigger]
                    source.contains_key(key) ==> {
                        let (q, place) = source[key];
                        &&& queue <= q < all.len()
                        &&& q == queue ==> egresses@.len() <= place
                        &&& 0 <= place < all[q].1@.len()
                        &&& (key.0 as int, key.1) == rank(all, q, place)
                        &&& ordered@[key] == all[q].1@[place]
                    },
                forall|q: int, place: int|
                    (queue < q < all.len() && 0 <= place < all[q].1@.len()) || (q == queue
                        && egresses@.len() <= place < posts.len()) ==> {
                        let key = #[trigger] rank(all, q, place);
                        &&& source.contains_key(((key.0) as i64, key.1))
                        &&& source[((key.0) as i64, key.1)] == (q, place)
                    },
            decreases egresses.len(),
        {
            let ghost place = egresses@.len() - 1;
            let ghost source_before = source;
            let ghost inserted = (depth, routing_id);
            let egress = egresses.pop().unwrap();
            proof {
                lemma_ranks_are_ordered();
                assert(egresses@ =~= posts.take(place));
                assert(egress == posts[place]);
                assert((depth as int, routing_id) == rank(all, queue, place));
                if source.contains_key((depth, routing_id)) {
                    let (q, p) = source[(depth, routing_id)];
                    assert(all[q].0 == all[queue].0);
                }
                source = source.insert((depth, routing_id), (queue, place));
            }
            ordered.insert((depth, routing_id), egress);
            depth = depth - 1;
            proof {
                assert forall|q: int, p: int|
                    (queue < q < all.len() && 0 <= p < all[q].1@.len()) || (q == queue
                        && egresses@.len() <= p < posts.len()) implies {
                    let key = #[trigger] rank(all, q, p);
                    &&& source.contains_key(((key.0) as i64, key.1))
                    &&& source[((key.0) as i64, key.1)] == (q, p)
                } by {
                    let key = rank(all, q, p);
                    if q == queue && p == place {
                    } else {
                        assert(source_before.contains_key(((key.0) as i64, key.1)));
                        assert(((key.0) as i64, key.1) != inserted) by {
                            if q != queue {
                                if q < queue {
                                    assert(all[q].0 != all[queue].0);
                                } else {
                                    assert(all[queue].0 != all[q].0);
                                }
                            }
                        }
                    }
                }
            }
        }
    }
    let mut keys: Vec<(i64, ParaId)> = Vec::new();
    let in_order = ordered.keys();
    let ghost ranked = in_order.remaining();
    proof {
        assert(increasing_seq(ranked));
        lemma_ranks_in_order(ranked);
    }
    for key in ranks: in_order
        invariant
            ranks.seq() == ranked,
            keys@ == ranked.unref().take(ranks.index()),
    {
        keys.push(*key);
        proof {
            assert(keys@ =~= ranked.unref().take(ranks.index() + 1));
        }
    }
    let ghost full = ordered@;
    let mut ingress: Vec<(ParaId, M)> = Vec::new();
    proof {
        assert(keys@ =~= ranked.unref());
        assert forall|a: int, b: int| 0 <= a < b < keys@.len() implies ranks_before(
            ((#[trigger] keys@[a]).0 + 0, keys@[a].1),
            ((#[trigger] keys@[b]).0 + 0, keys@[b].1),
        ) by {
            assert(keys@[a] == *ranked[a] && keys@[b] == *ranked[b]);
        }
        assert(keys@.no_duplicates());
        assert(keys@.to_set() =~= full.dom()) by {
            assert(ranked.unref().to_set() == full.dom());
        }
    }
    let mut i: usize = 0;
    while i < keys.len()
        invariant
            i <= keys.len(),
            keys@.no_duplicates(),
            keys@.to_set() == full.dom(),
            ingress@.len() == i,
            forall|j: int| 0 <= j < i ==> #[trigger] ingress@[j] == (keys@[j].1, full[keys@[j]]),
            forall|j: int|
                i <= j < keys.len() ==> ordered@.contains_key(#[trigger] keys@[j]) && ordered@[keys@[j]]
                    == full[keys@[j]],
        decreases keys.len() - i,
    {
        proof {
            lemma_ranks_are_ordered();
        }
        let key = keys[i];
        match ordered.remove(&key) {
            Some(egress) => {
                ingress.push((key.1, egress));
            },
            None => {
                unreached::<()>();
            },
        }
        i = i + 1;
    }
    proof {
        let origin = Seq::new(keys@.len(), |j: int| source[keys@[j]]);
        assert forall|j: int| 0 <= j < origin.len() implies {
            &&& 0 <= (#[trigger] origin[j]).0 < all.len()
            &&& 0 <= origin[j].1 < all[origin[j].0].1@.len()
            &&& ingress@[j] == (all[origin[j].0].0, all[origin[j].0].1@[origin[j].1])
            &&& rank(all, origin[j].0, origin[j].1) == (keys@[j].0 as int, keys@[j].1)
        } by {
            assert(keys@.to_set().contains(keys@[j]));
            assert(source.contains_key(keys@[j]));
        }
        assert forall|a: int, b: int| 0 <= a < b < origin.len() implies ranks_before(
            rank(all, (#[trigger] origin[a]).0, origin[a].1),
            rank(all, (#[trigger] origin[b]).0, origin[b].1),
        ) by {
            assert(ranks_before((keys@[a].0 + 0, keys@[a].1), (keys@[b].0 + 0, keys@[b].1)));
        }
        assert forall|queue: int, place: int|
            0 <= queue < all.len() && 0 <= place < all[queue].1@.len() implies #[trigger] origin.contains(
            (queue, place),
        ) by {
            let key = rank(all, queue, place);
            let held = ((key.0) as i64, key.1);
            assert(source.contains_key(held));
            assert(keys@.to_set().contains(held));
            let j = choose|j: int| 0 <= j < keys@.len() && keys@[j] == held;
            assert(origin[j] == (queue, place));
        }
        assert(origin.len() == ingress@.len());
        assert(forall|i: int|
            0 <= i < origin.len() ==> {
                &&& 0 <= (#[trigger] origin[i]).0 < all.len()
                &&& 0 <= origin[i].1 < all[origin[i].0].1@.len()
                &&& ingress@[i] == (all[origin[i].0].0, all[origin[i].0].1@[origin[i].1])
            });
        assert(forall|i: int, j: int|
            0 <= i < j < origin.len() ==> ranks_before(
                rank(all, (#[trigger] origin[i]).0, origin[i].1),
                rank(all, (#[trigger] origin[j]).0, origin[j].1),
            ));
        assert(forall|queue: int, place: int|
            0 <= queue < all.len() && 0 <= place < all[queue].1@.len() ==> #[trigger] origin.contains(
                (queue, place),
            ));
        assert(consolidates(all, ingress@));
    }
    ingress
}

/// The messages of an ingress queue, each with the parachain it comes from,
/// in the order of the queue.
pub open spec fn messages_of<T>(ingress: Seq<(ParaId, Vec<T>)>) -> Seq<(ParaId, T)>
    decreases ingress.len(),
{
    if ingress.len() == 0 {
        Seq::empty()
    } else {
        messages_of(ingress.drop_last()) + Seq::new(
            ingress.last().1@.len(),
            |k: int| (ingress.last().0, ingress.last().1@[k]),
        )
    }
}

/// Clones of the messages of an ingress queue, each with the parachain it
/// comes from, in the order of the queue.
pub fn ingress_messages<T: Clone>(ingress: &Vec<(ParaId, Vec<T>)>) -> (messages: Vec<(ParaId, T)>)
    ensures
        messages@.len() == messages_of(ingress@).len(),
        forall|i: int|
            0 <= i < messages@.len() ==> {
                &&& (#[trigger] messages@[i]).0 == messages_of(ingress@)[i].0
                &&& cloned(messages_of(ingress@)[i].1, messages@[i].1)
            },
{
    let mut messages: Vec<(ParaId, T)> = Vec::new();
    let mut q: usize = 0;
    while q < ingress.len()
        invariant
            q <= ingress.len(),
            messages@.len() == messages_of(ingress@.take(q as int)).len(),
            forall|i: int|
                0 <= i < messages@.len() ==> {
                    &&& (#[trigger] messages@[i]).0 == messages_of(ingress@.take(q as int))[i].0
                    &&& cloned(messages_of(ingress@.take(q as int))[i].1, messages@[i].1)
                },
        decreases ingress.len() - q,
    {
        let id = ingress[q].0;
        let posts = &ingress[q].1;
        let ghost done = messages_of(ingress@.take(q as int));
        let ghost these = Seq::new(posts@.len(), |k: int| (id, posts@[k]));
        proof {
            assert(ingress@.take(q + 1).drop_last() =~= ingress@.take(q as int));
            assert(ingress@.take(q + 1).last() == ingress@[q as int]);
            assert(messages_of(ingress@.take(q + 1)) == done + these);
        }
        let mut k: usize = 0;
        while k < posts.len()
            invariant
                k <= posts.len(),
                these.len() == posts@.len(),
                forall|j: int| 0 <= j < these.len() ==> #[trigger] these[j] == (id, posts@[j]),
                messages@.len() == done.len() + k,
                forall|i: int|
                    0 <= i < messages@.len() ==> {
                        &&& (#[trigger] messages@[i]).0 == (done + these)[i].0
                        &&& cloned((done + these)[i].1, messages@[i].1)
                    },
            decreases posts.len() - k,
        {
            let message = posts[k].clone();
            let ghost before = messages@;
            messages.push((id, message));
            proof {
                assert(forall|i: int| 0 <= i < before.len() ==> messages@[i] == before[i]);
                assert((done + these)[done.len() + k] == these[k as int]);
            }
            k = k + 1;
        }
        q = q + 1;
    }
    proof {
        assert(ingress@.take(ingress@.len() as int) =~= ingress@);
    }
    messages
}

} // verus!
