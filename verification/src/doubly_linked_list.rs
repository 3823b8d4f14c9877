//! The executable list and its cursor.
//!
//! Nodes are kept in an arena, a vector of slots addressed by index.  A link
//! is the index of the neighbour's slot, so a node is reached from both sides
//! without being owned by either.  A slot that a pop has emptied goes onto a
//! free list and is filled again by a later append.
//!
//! Both types keep their consistency as a type invariant: no function here
//! asks anything of its caller, and none can be handed an inconsistent value.

use crate::links::{
    law_append_keeps_links, law_ends_link_to_nothing_outward, law_links_step_through_entries,
    law_neighbours_link_back, law_pop_keeps_links, ListView, NodeView,
};
use crate::model::{after_pop, appended, pop_result, CursorView, Payload};
use vstd::prelude::*;

verus! {

/// A link to a neighbouring node: its slot in the arena, or nothing.
type Link = Option<usize>;

/// One entry of the list: a payload and the links to both neighbours.
struct Node {
    value: String,
    next: Link,
    prev: Link,
}

impl View for Node {
    type V = NodeView;

    closed spec fn view(&self) -> NodeView {
        NodeView { value: self.value@, next: self.next, prev: self.prev }
    }
}

impl Node {
    /// A node that holds `value` and is linked to nothing.
    fn new(value: String) -> (node: Node)
        ensures
            node@ == (NodeView { value: value@, next: None, prev: None }),
    {
        Node { value: value, next: None, prev: None }
    }
}

/// An ordered log of textual entries: append at the tail, pop at the head.
pub struct BetterTransactionLog {
    /// The arena.  A slot holds a node of the list or is empty.
    slots: Vec<Option<Node>>,
    /// The empty slots of the arena, each once.
    free: Vec<usize>,
    head: Link,
    tail: Link,
    length: u64,
}

impl View for BetterTransactionLog {
    type V = Seq<Payload>;

    /// The payloads in list order, oldest first.
    open spec fn view(&self) -> Seq<Payload> {
        self.links().entries()
    }
}

impl BetterTransactionLog {
    /// The list as a graph: the nodes in the occupied slots, named by their
    /// slots, with the two ends and the count that the log keeps.
    pub closed spec fn links(&self) -> ListView {
        ListView {
            nodes: Map::new(
                |slot: usize| slot < self.slots.len() && self.slots[slot as int] is Some,
                |slot: usize| self.slots[slot as int].unwrap()@,
            ),
            head: self.head,
            tail: self.tail,
            length: self.length as nat,
        }
    }

    /// The list is well linked, and the arena is accounted for: the free
    /// list names empty slots, each once, and with the nodes of the list
    /// they fill the arena.  So `length` is bounded by the number of slots
    /// of a vector, and counting one node more cannot overflow.
    #[verifier::type_invariant]
    spec fn consistent(&self) -> bool {
        &&& self.links().well_linked()
        &&& forall|k: int|
            0 <= k < self.free.len() ==> {
                let slot = #[trigger] self.free[k];
                &&& slot < self.slots.len()
                &&& self.slots[slot as int] is None
            }
        &&& self.free@.no_duplicates()
        &&& self.length + self.free.len() == self.slots.len()
    }

    /// An empty log: no node, no head and no tail.
    pub fn new_empty() -> (log: BetterTransactionLog)
        ensures
            log@ == Seq::<Payload>::empty(),
            log.links() == ListView::empty(),
            log.links().well_linked(),
    {
        let log = BetterTransactionLog {
            slots: Vec::new(),
            free: Vec::new(),
            head: None,
            tail: None,
            length: 0,
        };
        assert(log.links().nodes =~= ListView::empty().nodes);
        log
    }

    /// The number of entries.
    pub fn length(&self) -> (length: u64)
        ensures
            length == self@.len(),
            length == self.links().length,
            self.links().well_linked(),
    {
        proof {
            use_type_invariant(self);
        }
        self.length
    }

    /// Appends `value` as the newest entry.
    ///
    /// The new node becomes the tail.  Where the log was empty it becomes the
    /// head too; else its `prev` links to the old tail, and `next` of the old
    /// tail to it.  The node sits in a slot that held no node before.
    pub fn append(&mut self, value: String)
        ensures
            final(self)@ == appended(old(self)@, value@),
            final(self).links().well_linked(),
            final(self).links().tail matches Some(id) && !old(self).links().nodes.dom().contains(id)
                && final(self).links() == old(self).links().with_appended(id, value@),
    {
        proof {
            use_type_invariant(&*self);
            law_ends_link_to_nothing_outward(self.links());
        }
        // The links are changed on the parts of the log, and the log is put
        // together again once they are consistent.
        let mut taken = BetterTransactionLog::new_empty();
        core::mem::swap(self, &mut taken);
        let BetterTransactionLog { mut slots, mut free, mut head, tail, length } = taken;

        let mut new = Node::new(value);
        new.prev = tail;
        let slot: usize = match free.pop() {
            Some(slot) => {
                slots[slot] = Some(new);
                slot
            },
            None => {
                slots.push(Some(new));
                slots.len() - 1
            },
        };
        match tail {
            Some(last) => {
                match &mut slots[last] {
                    Some(node) => {
                        node.next = Some(slot);
                    },
                    None => {},
                }
            },
            None => {
                head = Some(slot);
            },
        }
        proof {
            let before = old(self).links();
            let after = BetterTransactionLog {
                slots,
                free,
                head,
                tail: Some(slot),
                length: (length + 1) as u64,
            }.links();
            assert(after.nodes =~= before.with_appended(slot, value@).nodes);
            law_append_keeps_links(before, slot, value@);
        }
        *self = BetterTransactionLog { slots, free, head, tail: Some(slot), length: length + 1 };
    }

    /// Removes the oldest entry and returns its payload, or returns `None`
    /// and changes nothing where the log is empty.
    ///
    /// Where the head has a `next`, that node becomes the head and its `prev`
    /// is cleared; else head and tail both become empty.
    pub fn pop(&mut self) -> (value: Option<String>)
        ensures
            final(self)@ == after_pop(old(self)@),
            match value {
                Some(value) => pop_result(old(self)@) == Some(value@),
                None => pop_result(old(self)@) is None,
            },
            final(self).links().well_linked(),
            final(self).links() == old(self).links().with_head_removed(),
    {
        proof {
            use_type_invariant(&*self);
            law_pop_keeps_links(self.links());
            law_ends_link_to_nothing_outward(self.links());
        }
        let first = match self.head {
            Some(first) => first,
            None => {
                return None;
            },
        };
        proof {
            law_neighbours_link_back(self.links(), first);
        }
        let mut taken = BetterTransactionLog::new_empty();
        core::mem::swap(self, &mut taken);
        let BetterTransactionLog { mut slots, mut free, head: _, mut tail, length } = taken;

        let node = slots[first].take().unwrap();
        match node.next {
            Some(second) => {
                match &mut slots[second] {
                    Some(node) => {
                        node.prev = None;
                    },
                    None => {},
                }
            },
            None => {
                tail = None;
            },
        }
        free.push(first);
        proof {
            let before = old(self).links();
            let after = BetterTransactionLog {
                slots,
                free,
                head: node.next,
                tail,
                length: (length - 1) as u64,
            }.links();
            assert(after.nodes =~= before.with_head_removed().nodes);
        }
        *self = BetterTransactionLog { slots, free, head: node.next, tail, length: length - 1 };
        Some(node.value)
    }

    /// A cursor that stands at the tail and owns the log, for a walk from
    /// the newest entry to the oldest.
    pub fn back_iter(self) -> (cursor: ListIterator<'static>)
        ensures
            cursor@ == CursorView::at_tail(self@),
            cursor.list() == self.links(),
            cursor.stands_at() == self.links().tail,
            cursor.anchored(),
    {
        proof {
            use_type_invariant(&self);
            law_ends_link_to_nothing_outward(self.links());
        }
        let tail = self.tail;
        ListIterator::new(Chain::Owned(self), tail)
    }

    /// A cursor that stands at the head and borrows the log, which is left
    /// as it is: every call starts the same walk anew.
    pub fn iter<'a>(&'a self) -> (cursor: ListIterator<'a>)
        ensures
            cursor@ == CursorView::at_head(self@),
            cursor.list() == self.links(),
            cursor.stands_at() == self.links().head,
            cursor.anchored(),
    {
        proof {
            use_type_invariant(self);
            law_ends_link_to_nothing_outward(self.links());
        }
        ListIterator::new(Chain::Borrowed(self), self.head)
    }

    /// A cursor that stands at the head and owns the log.
    pub fn into_iter(self) -> (cursor: ListIterator<'static>)
        ensures
            cursor@ == CursorView::at_head(self@),
            cursor.list() == self.links(),
            cursor.stands_at() == self.links().head,
            cursor.anchored(),
    {
        proof {
            use_type_invariant(&self);
            law_ends_link_to_nothing_outward(self.links());
        }
        let head = self.head;
        ListIterator::new(Chain::Owned(self), head)
    }
}

/// The nodes a cursor walks over: a log of its own, or one that it borrows.
enum Chain<'a> {
    Owned(BetterTransactionLog),
    Borrowed(&'a BetterTransactionLog),
}

impl<'a> Chain<'a> {
    /// The log that holds the nodes.
    spec fn held(&self) -> BetterTransactionLog {
        match self {
            Chain::Owned(log) => *log,
            Chain::Borrowed(log) => **log,
        }
    }

    /// The log that holds the nodes.
    fn log(&self) -> (log: &BetterTransactionLog)
        ensures
            *log == self.held(),
    {
        match self {
            Chain::Owned(log) => log,
            Chain::Borrowed(log) => log,
        }
    }
}

/// A cursor over the entries of a log.
///
/// It stands at one node, or at none once it has run off an end.  A step in
/// either direction hands out the payload of the node it stands at and moves
/// to that node's neighbour.  There is one position for both directions.
pub struct ListIterator<'a> {
    chain: Chain<'a>,
    current: Link,
}

impl<'a> View for ListIterator<'a> {
    type V = CursorView;

    /// The entries of the list walked over, and the rank of the node the
    /// cursor stands at.
    open spec fn view(&self) -> CursorView {
        self.list().cursor_at(self.stands_at())
    }
}

impl<'a> ListIterator<'a> {
    /// The list that the cursor walks over.
    pub closed spec fn list(&self) -> ListView {
        self.chain.held().links()
    }

    /// The link to the node that the cursor stands at: empty once the cursor
    /// is exhausted.
    pub closed spec fn stands_at(&self) -> Option<usize> {
        self.current
    }

    /// The cursor walks over a well-linked list and stands at one of its
    /// nodes or at none.
    pub open spec fn anchored(&self) -> bool {
        &&& self.list().well_linked()
        &&& self.list().holds(self.stands_at())
    }

    /// The cursor stands at a node of the list or at none.
    #[verifier::type_invariant]
    spec fn on_list(&self) -> bool {
        self.chain.held().links().holds(self.current)
    }

    /// A cursor over `chain` that stands at `start_at`.
    fn new(chain: Chain<'a>, start_at: Link) -> (cursor: ListIterator<'a>)
        requires
            chain.held().links().holds(start_at),
        ensures
            cursor.chain == chain,
            cursor.current == start_at,
    {
        ListIterator { chain: chain, current: start_at }
    }

    /// Hands out the payload of the node the cursor stands at and moves to
    /// that node's `next`, towards the tail.  An exhausted cursor hands out
    /// `None` and stays exhausted.
    pub fn next(&mut self) -> (result: Option<String>)
        ensures
            final(self)@ == old(self)@.forward(),
            match result {
                Some(value) => old(self)@.current() == Some(value@),
                None => old(self)@.current() is None,
            },
            final(self).list() == old(self).list(),
            final(self).stands_at() == old(self).list().next_of(old(self).stands_at()),
            final(self).anchored(),
    {
        let log = self.chain.log();
        proof {
            use_type_invariant(&*self);
            use_type_invariant(log);
            law_links_step_through_entries(log.links(), self.current);
        }
        let mut result = None;
        self.current = match self.current {
            Some(slot) => match &log.slots[slot] {
                Some(node) => {
                    result = Some(node.value.clone());
                    node.next
                },
                None => None,
            },
            None => None,
        };
        result
    }

    /// Hands out the payload of the node the cursor stands at and moves to
    /// that node's `prev`, towards the head.  An exhausted cursor hands out
    /// `None` and stays exhausted.
    pub fn next_back(&mut self) -> (result: Option<String>)
        ensures
            final(self)@ == old(self)@.backward(),
            match result {
                Some(value) => old(self)@.current() == Some(value@),
                None => old(self)@.current() is None,
            },
            final(self).list() == old(self).list(),
            final(self).stands_at() == old(self).list().prev_of(old(self).stands_at()),
            final(self).anchored(),
    {
        let log = self.chain.log();
        proof {
            use_type_invariant(&*self);
            use_type_invariant(log);
            law_links_step_through_entries(log.links(), self.current);
        }
        let mut result = None;
        self.current = match self.current {
            Some(slot) => match &log.slots[slot] {
                Some(node) => {
                    result = Some(node.value.clone());
                    node.prev
                },
                None => None,
            },
            None => None,
        };
        result
    }
}

} // verus!
