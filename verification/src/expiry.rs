//! The expiry queue of a map: the times at which keys are due, earliest first.

use crate::key::{compare_keys, StickyKey};
use crate::text::Relation;
use vstd::prelude::*;

verus! {

use crate::key::{
    lemma_key_order_asymmetric, lemma_key_order_total, lemma_key_order_transitive, StickyKeyView,
};
use crate::model::node_before;
use vstd::multiset::Multiset;

/// A key and the time at which it is due.
#[derive(Debug)]
pub(crate) struct ExpiryNode {
    pub(crate) end_time: u64,
    pub(crate) key: StickyKey,
}

impl View for ExpiryNode {
    type V = (u64, StickyKeyView);

    open(crate) spec fn view(&self) -> (u64, StickyKeyView) {
        (self.end_time, self.key@)
    }
}

proof fn lemma_node_order_asymmetric(a: (u64, StickyKeyView), b: (u64, StickyKeyView))
    requires
        node_before(a, b),
    ensures
        !node_before(b, a),
        a != b,
{
    if a.0 == b.0 {
        lemma_key_order_asymmetric(a.1, b.1);
    }
}

proof fn lemma_node_order_transitive(
    a: (u64, StickyKeyView),
    b: (u64, StickyKeyView),
    c: (u64, StickyKeyView),
)
    requires
        node_before(a, b),
        node_before(b, c),
    ensures
        node_before(a, c),
{
    if a.0 == b.0 && b.0 == c.0 {
        lemma_key_order_transitive(a.1, b.1, c.1);
    }
}

/// Of two different nodes one comes before the other.
pub(crate) proof fn lemma_node_order_total(a: (u64, StickyKeyView), b: (u64, StickyKeyView))
    ensures
        a == b || node_before(a, b) || node_before(b, a),
{
    lemma_key_order_total(a.1, b.1);
}

/// How `a` stands to `b`: by time, then by key.
fn compare_nodes(a: &ExpiryNode, b: &ExpiryNode) -> (relation: Relation)
    ensures
        match relation {
            Relation::Before => node_before(a@, b@),
            Relation::Same => a@ == b@,
            Relation::After => node_before(b@, a@),
        },
{
    if a.end_time < b.end_time {
        Relation::Before
    } else if b.end_time < a.end_time {
        Relation::After
    } else {
        compare_keys(&a.key, &b.key)
    }
}

/// Nodes by time, then by key. A node may occur more than once.
#[derive(Debug)]
pub(crate) struct ExpiryQueue {
    /// In descending order, so that the earliest node stands at the end.
    nodes: Vec<ExpiryNode>,
}

/// What the nodes of a sequence stand for, in order.
pub(crate) closed spec fn node_views(nodes: Seq<ExpiryNode>) -> Seq<(u64, StickyKeyView)> {
    nodes.map_values(|node: ExpiryNode| node@)
}

/// No node comes before one that follows it.
pub(crate) closed spec fn descending(nodes: Seq<ExpiryNode>) -> bool {
    forall|i: int, j: int|
        0 <= i < j < nodes.len() ==> !node_before(#[trigger] nodes[i]@, #[trigger] nodes[j]@)
}

/// The last of the nodes is one of the earliest.
proof fn lemma_last_is_earliest(nodes: Seq<ExpiryNode>)
    requires
        descending(nodes),
        nodes.len() > 0,
    ensures
        node_views(nodes).to_multiset().contains(nodes.last()@),
        forall|other: (u64, StickyKeyView)| #[trigger]
            node_views(nodes).to_multiset().contains(other) ==> !node_before(other, nodes.last()@),
{
    broadcast use vstd::seq_lib::group_to_multiset_ensures;

    let views = node_views(nodes);
    assert(views[nodes.len() - 1] == nodes.last()@);
    assert(views.contains(nodes.last()@));
    assert forall|other: (u64, StickyKeyView)| #[trigger]
        views.to_multiset().contains(other) implies !node_before(other, nodes.last()@) by {
        assert(views.contains(other));
        let i = choose|i: int| 0 <= i < views.len() && views[i] == other;
        assert(nodes[i]@ == other);
        if node_before(other, nodes.last()@) {
            lemma_node_order_asymmetric(other, nodes.last()@);
            assert(i < nodes.len() - 1);
            assert(!node_before(nodes[i]@, nodes[nodes.len() - 1]@));
        }
    }
}

impl View for ExpiryQueue {
    type V = Multiset<(u64, StickyKeyView)>;

    closed spec fn view(&self) -> Multiset<(u64, StickyKeyView)> {
        node_views(self.nodes@).to_multiset()
    }
}

impl ExpiryQueue {
    /// The nodes are in order.
    pub(crate) closed spec fn wf(&self) -> bool {
        descending(self.nodes@)
    }

    /// How many nodes the queue holds.
    pub(crate) closed spec fn node_count(&self) -> nat {
        self.nodes@.len()
    }

    /// A queue without nodes.
    pub(crate) fn new() -> (queue: Self)
        ensures
            queue.wf(),
            queue@ == Multiset::<(u64, StickyKeyView)>::empty(),
    {
        let queue = ExpiryQueue { nodes: Vec::new() };
        proof {
            broadcast use vstd::seq_lib::group_to_multiset_ensures;

            assert(queue@.len() == 0);
        }
        queue
    }

    /// The earliest node, if there is one.
    pub(crate) fn peek(&self) -> (earliest: Option<&ExpiryNode>)
        requires
            self.wf(),
        ensures
            match earliest {
                Some(node) => {
                    &&& self@.contains(node@)
                    &&& forall|other: (u64, StickyKeyView)| #[trigger]
                        self@.contains(other) ==> !node_before(other, node@)
                },
                None => self@ == Multiset::<(u64, StickyKeyView)>::empty(),
            },
    {
        let len = self.nodes.len();
        if len == 0 {
            proof {
                broadcast use vstd::seq_lib::group_to_multiset_ensures;

                assert(self@.len() == 0);
            }
            None
        } else {
            proof {
                lemma_last_is_earliest(self.nodes@);
            }
            Some(&self.nodes[len - 1])
        }
    }

    /// Take out the earliest node, if there is one.
    pub(crate) fn pop(&mut self) -> (earliest: Option<ExpiryNode>)
        requires
            old(self).wf(),
        ensures
            final(self).wf(),
            match earliest {
                Some(node) => {
                    &&& old(self)@.contains(node@)
                    &&& forall|other: (u64, StickyKeyView)| #[trigger]
                        old(self)@.contains(other) ==> !node_before(other, node@)
                    &&& final(self)@ == old(self)@.remove(node@)
                    &&& final(self).node_count() + 1 == old(self).node_count()
                },
                None => {
                    &&& old(self)@ == Multiset::<(u64, StickyKeyView)>::empty()
                    &&& final(self)@ == old(self)@
                },
            },
    {
        let ghost before = self.nodes@;
        let earliest = self.nodes.pop();
        proof {
            broadcast use vstd::seq_lib::group_to_multiset_ensures;

            if before.len() == 0 {
                assert(node_views(before).to_multiset().len() == 0);
            } else {
                lemma_last_is_earliest(before);
                let last = before.len() - 1;
                assert(node_views(self.nodes@) =~= node_views(before).remove(last));
                assert forall|i: int, j: int| 0 <= i < j < self.nodes@.len() implies !node_before(
                    #[trigger] self.nodes@[i]@,
                    #[trigger] self.nodes@[j]@,
                ) by {
                    assert(!node_before(before[i]@, before[j]@));
                }
            }
        }
        earliest
    }

    /// Add a node.
    pub(crate) fn push(&mut self, node: ExpiryNode)
        requires
            old(self).wf(),
        ensures
            final(self).wf(),
            final(self)@ == old(self)@.insert(node@),
    {
        let ghost before = self.nodes@;
        let mut low: usize = 0;
        let mut high: usize = self.nodes.len();
        while low < high
            invariant
                self.nodes@ == before,
                descending(before),
                low <= high <= before.len(),
                forall|j: int| 0 <= j < low ==> !node_before(#[trigger] before[j]@, node@),
                forall|j: int| high <= j < before.len() ==> !node_before(node@, #[trigger] before[j]@),
            decreases high - low,
        {
            let middle: usize = low + (high - low) / 2;
            let ghost pivot = before[middle as int]@;
            match compare_nodes(&self.nodes[middle], &node) {
                Relation::Before => {
                    proof {
                        assert forall|j: int| middle <= j < before.len() implies !node_before(
                            node@,
                            #[trigger] before[j]@,
                        ) by {
                            if node_before(node@, before[j]@) {
                                lemma_node_order_transitive(pivot, node@, before[j]@);
                                lemma_node_order_asymmetric(pivot, before[j]@);
                                assert(!node_before(before[middle as int]@, before[j]@));
                            }
                        }
                    }
                    high = middle;
                },
                _ => {
                    proof {
                        assert forall|j: int| 0 <= j < middle + 1 implies !node_before(
                            #[trigger] before[j]@,
                            node@,
                        ) by {
                            if node_before(before[j]@, node@) {
                                lemma_node_order_asymmetric(before[j]@, node@);
                                if node@ != pivot {
                                    lemma_node_order_transitive(before[j]@, node@, pivot);
                                }
                                lemma_node_order_asymmetric(before[j]@, pivot);
                                assert(!node_before(before[j]@, before[middle as int]@));
                            }
                        }
                    }
                    low = middle + 1;
                },
            }
        }
        self.nodes.insert(low, node);
        proof {
            broadcast use vstd::seq_lib::group_to_multiset_ensures;

            let after = self.nodes@;
            assert(after == before.insert(low as int, node));
            assert forall|i: int, j: int| 0 <= i < j < after.len() implies !node_before(
                #[trigger] after[i]@,
                #[trigger] after[j]@,
            ) by {
                if i != low {
                    assert(after[i] == before[if i < low { i } else { i - 1 }]);
                }
                if j != low {
                    assert(after[j] == before[if j < low { j } else { j - 1 }]);
                }
            }
            assert(node_views(after) =~= node_views(before).insert(low as int, node@));
        }
    }
}

} // verus!
