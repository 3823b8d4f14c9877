//! The log and its cursor as mathematical values.
//!
//! A log is the sequence of its payloads, oldest first; a payload is the
//! sequence of characters of a string.  A cursor is such a sequence together
//! with the place it stands at.  The executable operations are specified by
//! the functions of this module, so the laws proved here hold of every run of
//! them.

use vstd::prelude::*;

verus! {

/// A payload as contracts see it: the characters of the stored string.
pub type Payload = Seq<char>;

/// The content of a log after `value` has been appended to `entries`.
pub open spec fn appended(entries: Seq<Payload>, value: Payload) -> Seq<Payload> {
    entries.push(value)
}

/// What a pop hands out: the oldest entry, or nothing from an empty log.
pub open spec fn pop_result(entries: Seq<Payload>) -> Option<Payload> {
    if entries.len() == 0 {
        None
    } else {
        Some(entries[0])
    }
}

/// The content of a log after one pop: everything but the oldest entry.
/// Popping an empty log leaves it empty.
pub open spec fn after_pop(entries: Seq<Payload>) -> Seq<Payload> {
    if entries.len() == 0 {
        entries
    } else {
        entries.subrange(1, entries.len() as int)
    }
}

/// The content of a log after each of `values` has been appended in turn.
pub open spec fn append_all(entries: Seq<Payload>, values: Seq<Payload>) -> Seq<Payload>
    decreases values.len(),
{
    if values.len() == 0 {
        entries
    } else {
        append_all(appended(entries, values[0]), values.subrange(1, values.len() as int))
    }
}

/// What `count` pops in a row hand out, first pop first.
pub open spec fn pop_results(entries: Seq<Payload>, count: nat) -> Seq<Option<Payload>>
    decreases count,
{
    if count == 0 {
        Seq::empty()
    } else {
        seq![pop_result(entries)] + pop_results(after_pop(entries), (count - 1) as nat)
    }
}

/// The content of a log after `count` pops in a row.
pub open spec fn after_pops(entries: Seq<Payload>, count: nat) -> Seq<Payload>
    decreases count,
{
    if count == 0 {
        entries
    } else {
        after_pops(after_pop(entries), (count - 1) as nat)
    }
}

/// Every entry of `entries` as a present value.
pub open spec fn all_present(entries: Seq<Payload>) -> Seq<Option<Payload>> {
    Seq::new(entries.len(), |i: int| Some(entries[i]))
}

/// A cursor: the entries it walks over and the place it stands at.
///
/// `position` is the index of the entry that the next step hands out, or
/// `None` once the cursor has run off either end.  There is one position for
/// both directions: a step forward and a step backward move the same place.
pub struct CursorView {
    pub entries: Seq<Payload>,
    pub position: Option<int>,
}

impl CursorView {
    /// The position, if there is one, is the index of an entry.
    pub open spec fn wf(self) -> bool {
        self.position matches Some(i) ==> 0 <= i < self.entries.len()
    }

    /// The cursor of a traversal that starts at the oldest entry.
    pub open spec fn at_head(entries: Seq<Payload>) -> CursorView {
        CursorView { entries, position: if entries.len() == 0 { None } else { Some(0) } }
    }

    /// The cursor of a traversal that starts at the newest entry.
    pub open spec fn at_tail(entries: Seq<Payload>) -> CursorView {
        CursorView {
            entries,
            position: if entries.len() == 0 { None } else { Some(entries.len() - 1) },
        }
    }

    /// The entry the cursor stands at: what the next step hands out, in
    /// either direction.
    pub open spec fn current(self) -> Option<Payload> {
        match self.position {
            Some(i) => Some(self.entries[i]),
            None => None,
        }
    }

    /// The cursor after one step forward.  Stepping past the newest entry, or
    /// stepping an exhausted cursor, gives an exhausted cursor.
    pub open spec fn forward(self) -> CursorView {
        CursorView {
            entries: self.entries,
            position: match self.position {
                Some(i) => if i + 1 < self.entries.len() { Some(i + 1) } else { None },
                None => None,
            },
        }
    }

    /// The cursor after one step backward.  Stepping past the oldest entry, or
    /// stepping an exhausted cursor, gives an exhausted cursor.
    pub open spec fn backward(self) -> CursorView {
        CursorView {
            entries: self.entries,
            position: match self.position {
                Some(i) => if i > 0 { Some(i - 1) } else { None },
                None => None,
            },
        }
    }

    /// How many steps forward the cursor can still hand an entry out.
    pub open spec fn steps_to_newest(self) -> nat {
        match self.position {
            Some(i) => if i < self.entries.len() { (self.entries.len() - i) as nat } else { 1 },
            None => 0,
        }
    }

    /// How many steps backward the cursor can still hand an entry out.
    pub open spec fn steps_to_oldest(self) -> nat {
        match self.position {
            Some(i) => if i > 0 { (i + 1) as nat } else { 1 },
            None => 0,
        }
    }

    /// Everything that stepping forward until exhaustion hands out, in the
    /// order in which it comes.
    pub open spec fn forward_run(self) -> Seq<Payload>
        decreases self.steps_to_newest(),
    {
        match self.current() {
            Some(value) => seq![value] + self.forward().forward_run(),
            None => Seq::empty(),
        }
    }

    /// Everything that stepping backward until exhaustion hands out, in the
    /// order in which it comes.
    pub open spec fn backward_run(self) -> Seq<Payload>
        decreases self.steps_to_oldest(),
    {
        match self.current() {
            Some(value) => seq![value] + self.backward().backward_run(),
            None => Seq::empty(),
        }
    }
}

/// Appending `values` one after another puts them behind what the log held,
/// in the order in which they were appended.
pub proof fn law_appends_extend_in_order(entries: Seq<Payload>, values: Seq<Payload>)
    ensures
        append_all(entries, values) == entries + values,
    decreases values.len(),
{
    if values.len() > 0 {
        law_appends_extend_in_order(
            appended(entries, values[0]),
            values.subrange(1, values.len() as int),
        );
    }
}

/// The `k`-th of `count` pops in a row hands out the `k`-th entry, and
/// nothing once the entries have run out; the log is left with the entries
/// that no pop reached.
pub proof fn law_pops_take_from_the_head(entries: Seq<Payload>, count: nat)
    ensures
        pop_results(entries, count).len() == count,
        forall|k: int|
            0 <= k < count ==> #[trigger] pop_results(entries, count)[k] == (if k < entries.len() {
                Some(entries[k])
            } else {
                None
            }),
        after_pops(entries, count) == (if count <= entries.len() {
            entries.subrange(count as int, entries.len() as int)
        } else {
            Seq::empty()
        }),
    decreases count,
{
    if count > 0 {
        let rest = after_pop(entries);
        let fewer = (count - 1) as nat;
        law_pops_take_from_the_head(rest, fewer);
        if count <= entries.len() {
            assert(rest.subrange(fewer as int, rest.len() as int) =~= entries.subrange(
                count as int,
                entries.len() as int,
            ));
        }
    }
}

/// A walk forward from the entry at `start` hands out that entry and all
/// newer ones, oldest first.
pub proof fn law_forward_walk_from(entries: Seq<Payload>, start: int)
    requires
        0 <= start < entries.len(),
    ensures
        (CursorView { entries, position: Some(start) }).forward_run() == entries.subrange(
            start,
            entries.len() as int,
        ),
    decreases entries.len() - start,
{
    let cursor = CursorView { entries, position: Some(start) };
    if start + 1 < entries.len() {
        law_forward_walk_from(entries, start + 1);
    } else {
        assert(cursor.forward().forward_run() =~= Seq::<Payload>::empty());
    }
    assert(seq![entries[start]] + entries.subrange(start + 1, entries.len() as int)
        =~= entries.subrange(start, entries.len() as int));
}

/// A walk backward from the entry at `start` hands out that entry and all
/// older ones, newest first.
pub proof fn law_backward_walk_from(entries: Seq<Payload>, start: int)
    requires
        0 <= start < entries.len(),
    ensures
        (CursorView { entries, position: Some(start) }).backward_run() == entries.subrange(
            0,
            start + 1,
        ).reverse(),
    decreases start,
{
    let cursor = CursorView { entries, position: Some(start) };
    if start > 0 {
        law_backward_walk_from(entries, start - 1);
    } else {
        assert(cursor.backward().backward_run() =~= Seq::<Payload>::empty());
    }
    assert(seq![entries[start]] + entries.subrange(0, start).reverse() =~= entries.subrange(
        0,
        start + 1,
    ).reverse());
}

/// A walk from the head hands out every entry, oldest first, and then
/// nothing.  The walk is a function of the entries alone: every fresh walk
/// over an unchanged log hands out the same.
pub proof fn law_walk_from_head_yields_all(entries: Seq<Payload>)
    ensures
        CursorView::at_head(entries).forward_run() == entries,
{
    if entries.len() > 0 {
        law_forward_walk_from(entries, 0);
    }
}

/// A walk backward from the tail hands out every entry, newest first, and
/// then nothing.
pub proof fn law_walk_from_tail_yields_reverse(entries: Seq<Payload>)
    ensures
        CursorView::at_tail(entries).backward_run() == entries.reverse(),
{
    if entries.len() > 0 {
        law_backward_walk_from(entries, entries.len() - 1);
    }
}

/// After `values` have been appended to an empty log, the log has as many
/// entries as there are values, and a walk from its head hands out exactly
/// the values, in the order in which they were appended.
pub proof fn law_appended_values_are_walked_in_order(values: Seq<Payload>)
    ensures
        append_all(Seq::empty(), values) == values,
        append_all(Seq::empty(), values).len() == values.len(),
        CursorView::at_head(append_all(Seq::empty(), values)).forward_run() == values,
{
    law_appends_extend_in_order(Seq::empty(), values);
    law_walk_from_head_yields_all(values);
}

/// After `values` have been appended to an empty log, a walk backward from
/// its tail hands out the values in the reverse of the order in which they
/// were appended.
pub proof fn law_appended_values_are_walked_back_in_reverse(values: Seq<Payload>)
    ensures
        CursorView::at_tail(append_all(Seq::empty(), values)).backward_run() == values.reverse(),
{
    law_appended_values_are_walked_in_order(values);
    law_walk_from_tail_yields_reverse(values);
}

/// After `values` have been appended to an empty log, as many pops as there
/// are values return the values in the order in which they were appended and
/// leave the log empty, and one more pop returns nothing.
pub proof fn law_pops_return_appended_values(values: Seq<Payload>)
    ensures
        pop_results(append_all(Seq::empty(), values), values.len()) == all_present(values),
        after_pops(append_all(Seq::empty(), values), values.len()) == Seq::<Payload>::empty(),
        pop_result(after_pops(append_all(Seq::empty(), values), values.len())) is None,
{
    law_appended_values_are_walked_in_order(values);
    law_pops_take_from_the_head(values, values.len());
}

/// A log with a single entry is empty again once that entry has been popped,
/// and the pop returns the entry.
pub proof fn law_single_entry_round_trip(value: Payload)
    ensures
        pop_result(appended(Seq::empty(), value)) == Some(value),
        after_pop(appended(Seq::empty(), value)) == Seq::<Payload>::empty(),
        after_pop(appended(Seq::empty(), value)).len() == 0,
{
}

/// Appending `values` to an empty log and popping as often gives the values
/// back in order and leaves a log that is empty and as good as new: whatever
/// is appended to it afterwards is its whole content.
pub proof fn law_round_trip_leaves_log_reusable(values: Seq<Payload>, more: Seq<Payload>)
    ensures
        pop_results(append_all(Seq::empty(), values), values.len()) == all_present(values),
        after_pops(append_all(Seq::empty(), values), values.len()) == Seq::<Payload>::empty(),
        append_all(after_pops(append_all(Seq::empty(), values), values.len()), more) == more,
{
    law_pops_return_appended_values(values);
    law_appended_values_are_walked_in_order(more);
}

/// An exhausted cursor hands out nothing and stays exhausted, whichever way
/// it is stepped.
pub proof fn law_exhausted_cursor_stays_exhausted(cursor: CursorView)
    requires
        cursor.position is None,
    ensures
        cursor.current() is None,
        cursor.forward() == cursor,
        cursor.backward() == cursor,
{
}

/// A step in either direction leaves a well-formed cursor well formed and
/// walks over the same entries.
pub proof fn law_steps_keep_cursor_well_formed(cursor: CursorView)
    requires
        cursor.wf(),
    ensures
        cursor.forward().wf(),
        cursor.backward().wf(),
        cursor.forward().entries == cursor.entries,
        cursor.backward().entries == cursor.entries,
{
}

/// Both directions move the one position of the cursor; they are not two
/// ends that approach each other.  Where a step one way has not exhausted the
/// cursor, the entry it then stands at is the neighbour of the one it stood
/// at, and a step the other way brings it back to where it stood.
pub proof fn law_opposite_steps_cancel(cursor: CursorView)
    requires
        cursor.wf(),
    ensures
        cursor.forward().position is Some ==> {
            &&& cursor.forward().current() == Some(cursor.entries[cursor.position.unwrap() + 1])
            &&& cursor.forward().backward() == cursor
        },
        cursor.backward().position is Some ==> {
            &&& cursor.backward().current() == Some(cursor.entries[cursor.position.unwrap() - 1])
            &&& cursor.backward().forward() == cursor
        },
{
}

} // verus!
