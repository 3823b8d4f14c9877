//! The list as a graph of linked nodes.
//!
//! [`crate::model`] describes a log by what it holds.  This module describes
//! how it is held: nodes that know their two neighbours, and a list that knows
//! its two ends and its length.  A node is named by the arena slot it sits
//! in; a link is such a name, or nothing.
//!
//! [`ListView::well_linked`] is the consistency that every operation keeps.
//! The laws below derive from it what a doubly linked list owes its users,
//! say what appending and popping do to the links, and tie a walk along the
//! links to the positions of [`CursorView`].

use crate::model::{after_pop, appended, pop_result, CursorView, Payload};
use vstd::prelude::*;

verus! {

/// A node as contracts see it: its payload and its links to both neighbours.
pub struct NodeView {
    pub value: Payload,
    pub next: Option<usize>,
    pub prev: Option<usize>,
}

/// A list as contracts see it: its live nodes by name, the links to its
/// first and last node, and its count of nodes.
pub struct ListView {
    pub nodes: Map<usize, NodeView>,
    pub head: Option<usize>,
    pub tail: Option<usize>,
    pub length: nat,
}

/// The link to the node of rank `rank` in `order`, or nothing where `order`
/// has no such rank.
pub open spec fn link_at(order: Seq<usize>, rank: int) -> Option<usize> {
    if 0 <= rank < order.len() {
        Some(order[rank])
    } else {
        None
    }
}

impl ListView {
    /// The list without nodes.
    pub open spec fn empty() -> ListView {
        ListView { nodes: Map::empty(), head: None, tail: None, length: 0 }
    }

    /// The nodes met by following `next` from `from`, for at most `steps`
    /// nodes.
    pub open spec fn walk(self, from: Option<usize>, steps: nat) -> Seq<usize>
        decreases steps,
    {
        match from {
            Some(id) => if steps > 0 {
                seq![id] + self.walk(self.nodes[id].next, (steps - 1) as nat)
            } else {
                Seq::empty()
            },
            None => Seq::empty(),
        }
    }

    /// The nodes in list order: those met by following `next` from the head,
    /// as many as `length` counts.
    pub open spec fn order(self) -> Seq<usize> {
        self.walk(self.head, self.length)
    }

    /// The payloads in list order, oldest first.
    pub open spec fn entries(self) -> Seq<Payload> {
        Seq::new(self.order().len(), |rank: int| self.nodes[self.order()[rank]].value)
    }

    /// The nodes of the list are exactly those of `order`, each once, and are
    /// linked in that order: `head` and `tail` link to the first and the last
    /// of them, `next` of each links to the one after it and `prev` to the
    /// one before it, and the links past either end are empty.
    pub open spec fn linked_along(self, order: Seq<usize>) -> bool {
        &&& order.len() == self.length
        &&& order.no_duplicates()
        &&& forall|id: usize| self.nodes.dom().contains(id) <==> order.contains(id)
        &&& self.head == link_at(order, 0)
        &&& self.tail == link_at(order, order.len() - 1)
        &&& forall|rank: int|
            0 <= rank < order.len() ==> {
                let node = self.nodes[#[trigger] order[rank]];
                &&& node.next == link_at(order, rank + 1)
                &&& node.prev == link_at(order, rank - 1)
            }
    }

    /// The list is consistent: following `next` from the head meets `length`
    /// nodes, which are all the live nodes, each once, and along them the
    /// links in both directions agree.
    pub open spec fn well_linked(self) -> bool {
        self.linked_along(self.order())
    }

    /// What `link` links to has `next`: the link held by that node, and
    /// nothing for an empty link.
    pub open spec fn next_of(self, link: Option<usize>) -> Option<usize> {
        match link {
            Some(id) => self.nodes[id].next,
            None => None,
        }
    }

    /// What `link` links to has `prev`: the link held by that node, and
    /// nothing for an empty link.
    pub open spec fn prev_of(self, link: Option<usize>) -> Option<usize> {
        match link {
            Some(id) => self.nodes[id].prev,
            None => None,
        }
    }

    /// The payload of the node that `link` links to, and nothing for an
    /// empty link.
    pub open spec fn value_at(self, link: Option<usize>) -> Option<Payload> {
        match link {
            Some(id) => Some(self.nodes[id].value),
            None => None,
        }
    }

    /// `link` is empty or links to a live node.
    pub open spec fn holds(self, link: Option<usize>) -> bool {
        link matches Some(id) ==> self.nodes.dom().contains(id)
    }

    /// The rank in list order of the node that `link` links to, and nothing
    /// for an empty link.
    pub open spec fn rank_of(self, link: Option<usize>) -> Option<int> {
        match link {
            Some(id) => Some(self.order().index_of(id)),
            None => None,
        }
    }

    /// The cursor that walks over this list and stands at `link`.
    pub open spec fn cursor_at(self, link: Option<usize>) -> CursorView {
        CursorView { entries: self.entries(), position: self.rank_of(link) }
    }

    /// The list after a node named `id` with payload `value` has been
    /// appended.  The new node becomes the tail.  Where the list was empty it
    /// becomes the head too; else its `prev` links to the old tail, and
    /// `next` of the old tail to it.
    pub open spec fn with_appended(self, id: usize, value: Payload) -> ListView {
        let node = NodeView { value, next: None, prev: self.tail };
        match self.tail {
            Some(last) => ListView {
                nodes: self.nodes.insert(
                    last,
                    NodeView {
                        value: self.nodes[last].value,
                        next: Some(id),
                        prev: self.nodes[last].prev,
                    },
                ).insert(id, node),
                head: self.head,
                tail: Some(id),
                length: self.length + 1,
            },
            None => ListView {
                nodes: self.nodes.insert(id, node),
                head: Some(id),
                tail: Some(id),
                length: self.length + 1,
            },
        }
    }

    /// The list after its head node has been removed.  Where the head has a
    /// `next`, that node becomes the head and its `prev` is cleared; else
    /// head and tail both become empty.  A list without a head is left as it
    /// is.
    pub open spec fn with_head_removed(self) -> ListView {
        match self.head {
            Some(first) => match self.nodes[first].next {
                Some(second) => ListView {
                    nodes: self.nodes.remove(first).insert(
                        second,
                        NodeView {
                            value: self.nodes[second].value,
                            next: self.nodes[second].next,
                            prev: None,
                        },
                    ),
                    head: Some(second),
                    tail: self.tail,
                    length: (self.length - 1) as nat,
                },
                None => ListView {
                    nodes: self.nodes.remove(first),
                    head: None,
                    tail: None,
                    length: (self.length - 1) as nat,
                },
            },
            None => self,
        }
    }
}

/// Along an order in which the nodes are linked, following `next` from the
/// node of rank `rank` meets the nodes of the ranks after it, in order.
pub proof fn law_walk_follows_order(list: ListView, order: Seq<usize>, rank: int, steps: nat)
    requires
        list.linked_along(order),
        0 <= rank <= order.len(),
    ensures
        list.walk(link_at(order, rank), steps) == order.subrange(
            rank,
            if rank + steps <= order.len() {
                rank + steps
            } else {
                order.len() as int
            },
        ),
    decreases steps,
{
    if rank < order.len() && steps > 0 {
        law_walk_follows_order(list, order, rank + 1, (steps - 1) as nat);
    }
}

/// There is one order in which the nodes of a list can be linked: the one
/// found by following `next` from the head.  So a list that is linked along
/// some order is well linked.
pub proof fn law_linked_order_is_the_walk(list: ListView, order: Seq<usize>)
    requires
        list.linked_along(order),
    ensures
        list.order() == order,
        list.well_linked(),
{
    law_walk_follows_order(list, order, 0, list.length);
}

/// The list without nodes is well linked and holds nothing.
pub proof fn law_empty_list_is_well_linked()
    ensures
        ListView::empty().well_linked(),
        ListView::empty().entries() == Seq::<Payload>::empty(),
{
}

/// Head and tail are empty together, and exactly when the list has no node.
pub proof fn law_ends_are_empty_together(list: ListView)
    requires
        list.well_linked(),
    ensures
        list.head is None <==> list.length == 0,
        list.tail is None <==> list.length == 0,
        list.length == list.entries().len(),
{
}

/// The head has no `prev` and the tail has no `next`; both are live nodes.
pub proof fn law_ends_link_to_nothing_outward(list: ListView)
    requires
        list.well_linked(),
    ensures
        list.holds(list.head),
        list.holds(list.tail),
        list.prev_of(list.head) is None,
        list.next_of(list.tail) is None,
{
    let order = list.order();
    if order.len() > 0 {
        assert(order.contains(order[0]));
        assert(order.contains(order[order.len() - 1]));
    }
}

/// The two directions agree: where `next` of a live node links to a node,
/// that node is live and its `prev` links back, and likewise the other way
/// round.
pub proof fn law_neighbours_link_back(list: ListView, id: usize)
    requires
        list.well_linked(),
        list.nodes.dom().contains(id),
    ensures
        list.nodes[id].next matches Some(after) ==> list.nodes.dom().contains(after)
            && list.nodes[after].prev == Some(id),
        list.nodes[id].prev matches Some(before) ==> list.nodes.dom().contains(before)
            && list.nodes[before].next == Some(id),
{
    let order = list.order();
    assert(order.contains(id));
    let rank = order.index_of(id);
    if rank + 1 < order.len() {
        assert(order.contains(order[rank + 1]));
    }
    if rank > 0 {
        assert(order.contains(order[rank - 1]));
    }
}

/// Following `next` from the head meets every live node once, `length` nodes
/// in all, and then comes to an end: however many more steps are allowed,
/// no further node is met.
pub proof fn law_length_counts_reachable_nodes(list: ListView, steps: nat)
    requires
        list.well_linked(),
        steps >= list.length,
    ensures
        list.walk(list.head, steps) == list.order(),
        list.order().len() == list.length,
        list.order().no_duplicates(),
        forall|id: usize| list.nodes.dom().contains(id) <==> list.order().contains(id),
{
    law_walk_follows_order(list, list.order(), 0, steps);
}

/// Appending a node under a name that no live node has keeps the list well
/// linked, puts the node last in list order, and appends its payload to the
/// entries.
pub proof fn law_append_keeps_links(list: ListView, id: usize, value: Payload)
    requires
        list.well_linked(),
        !list.nodes.dom().contains(id),
    ensures
        list.with_appended(id, value).well_linked(),
        list.with_appended(id, value).order() == list.order().push(id),
        list.with_appended(id, value).entries() == appended(list.entries(), value),
{
    let order = list.order();
    let after = list.with_appended(id, value);
    let longer = order.push(id);
    assert forall|other: usize| after.nodes.dom().contains(other) <==> longer.contains(
        other,
    ) by {
        if order.contains(other) {
            let rank = order.index_of(other);
            assert(longer[rank] == other);
        }
        if other == id {
            assert(longer[order.len() as int] == id);
        }
    }
    assert forall|rank: int| 0 <= rank < longer.len() implies {
        let node = after.nodes[#[trigger] longer[rank]];
        &&& node.next == link_at(longer, rank + 1)
        &&& node.prev == link_at(longer, rank - 1)
    } by {
        if rank < order.len() {
            assert(order.contains(order[rank]));
        }
    }
    law_linked_order_is_the_walk(after, longer);
}

/// Removing the head node keeps the list well linked, drops the first node
/// from list order and the oldest payload from the entries, and what it
/// removes is the payload that a pop hands out.
pub proof fn law_pop_keeps_links(list: ListView)
    requires
        list.well_linked(),
    ensures
        list.with_head_removed().well_linked(),
        list.with_head_removed().entries() == after_pop(list.entries()),
        list.value_at(list.head) == pop_result(list.entries()),
        list.head matches Some(first) ==> !list.with_head_removed().nodes.dom().contains(first),
{
    let order = list.order();
    let after = list.with_head_removed();
    if order.len() > 0 {
        let first = order[0];
        let shorter = order.subrange(1, order.len() as int);
        assert forall|other: usize| after.nodes.dom().contains(other) <==> shorter.contains(
            other,
        ) by {
            if order.contains(other) && other != first {
                let rank = order.index_of(other);
                assert(shorter[rank - 1] == other);
            }
        }
        law_linked_order_is_the_walk(after, shorter);
    }
}

/// A cursor that stands at the head stands at the oldest entry, and one that
/// stands at the tail stands at the newest.
pub proof fn law_ends_are_first_and_last(list: ListView)
    requires
        list.well_linked(),
    ensures
        list.cursor_at(list.head) == CursorView::at_head(list.entries()),
        list.cursor_at(list.tail) == CursorView::at_tail(list.entries()),
{
}

/// Walking the links is stepping through the entries.  For a cursor that
/// stands at a live node or at nothing: the payload of the node it stands at
/// is its current entry, the node's `next` is where it stands after a step
/// forward, and the node's `prev` is where it stands after a step backward.
/// Either link is again a live node or nothing.
pub proof fn law_links_step_through_entries(list: ListView, link: Option<usize>)
    requires
        list.well_linked(),
        list.holds(link),
    ensures
        list.cursor_at(link).wf(),
        list.value_at(link) == list.cursor_at(link).current(),
        list.cursor_at(list.next_of(link)) == list.cursor_at(link).forward(),
        list.cursor_at(list.prev_of(link)) == list.cursor_at(link).backward(),
        list.holds(list.next_of(link)),
        list.holds(list.prev_of(link)),
{
    let order = list.order();
    if let Some(id) = link {
        assert(order.contains(id));
        let rank = order.index_of(id);
        if rank + 1 < order.len() {
            assert(order.contains(order[rank + 1]));
        }
        if rank > 0 {
            assert(order.contains(order[rank - 1]));
        }
    }
}

/// A list with a single node is the empty list again once that node has
/// been removed: its length is back at zero, and neither head nor tail still
/// links to the removed node.
pub proof fn law_single_node_round_trip(id: usize, value: Payload)
    ensures
        ListView::empty().with_appended(id, value).with_head_removed() == ListView::empty(),
{
    let after = ListView::empty().with_appended(id, value).with_head_removed();
    assert(after.nodes =~= ListView::empty().nodes);
}

} // verus!
