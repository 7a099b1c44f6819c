//! Rows and tables. A table keeps one slot per row ever inserted; deleting a
//! row empties its slot (a tombstone), so the ids of other rows stay put until
//! `compact` drops the tombstones.
use vstd::prelude::*;

use crate::error::DbError;
use crate::schema::{ColumnView, Schema, row_error, row_fits, value_views};
use crate::text::text_to_string;
use crate::value::{Value, ValueView};

verus! {

/// The stored values of one row, one per column.
#[derive(Debug, PartialEq)]
pub struct Row(Vec<Value>);

impl View for Row {
    type V = Seq<ValueView>;

    closed spec fn view(&self) -> Seq<ValueView> {
        value_views(self.0@)
    }
}

impl Clone for Row {
    fn clone(&self) -> (r: Row)
        ensures
            r@ == self@,
    {
        let mut vals: Vec<Value> = Vec::new();
        let mut i: usize = 0;
        while i < self.0.len()
            invariant
                0 <= i <= self.0@.len(),
                vals@.len() == i,
                forall|k: int| 0 <= k < i ==> #[trigger] vals@[k]@ == self.0@[k]@,
            decreases self.0@.len() - i,
        {
            let v = self.0[i].clone();
            vals.push(v);
            i += 1;
        }
        assert(value_views(vals@) =~= value_views(self.0@));
        Row(vals)
    }
}

impl Row {
    /// The values, in column order.
    pub fn values(&self) -> (r: &[Value])
        ensures
            value_views(r@) == self@,
    {
        self.0.as_slice()
    }

    /// The value in column `index`.
    pub fn get(&self, index: usize) -> (r: Option<&Value>)
        ensures
            r is Some <==> index < self@.len(),
            r matches Some(v) ==> v@ == self@[index as int],
    {
        if index < self.0.len() {
            Some(&self.0[index])
        } else {
            None
        }
    }

    /// The number of values.
    pub fn len(&self) -> (r: usize)
        ensures
            r == self@.len(),
    {
        self.0.len()
    }

    /// Whether the row has no values.
    pub fn is_empty(&self) -> (r: bool)
        ensures
            r == (self@.len() == 0),
    {
        self.0.len() == 0
    }
}

impl core::ops::Index<usize> for Row {
    type Output = Value;

    fn index(&self, index: usize) -> (r: &Value)
        ensures
            r@ == self@[index as int],
    {
        &self.0[index]
    }
}

impl vstd::std_specs::core::IndexSpecImpl<usize> for Row {
    open spec fn index_req(&self, index: &usize) -> bool {
        *index < self@.len()
    }
}

/// The model of a slot: the row it holds, or nothing once deleted.
pub type SlotView = Option<Seq<ValueView>>;

/// The model of a table.
pub struct TableView {
    pub name: Seq<char>,
    pub schema: Seq<ColumnView>,
    pub slots: Seq<SlotView>,
}

/// The live rows of a sequence of slots, each with its id (its slot's
/// position), in id order.
pub open spec fn live_entries(slots: Seq<SlotView>) -> Seq<(int, Seq<ValueView>)>
    decreases slots.len(),
{
    if slots.len() == 0 {
        Seq::empty()
    } else {
        let earlier = live_entries(slots.drop_last());
        match slots.last() {
            Some(row) => earlier.push(((slots.len() - 1) as int, row)),
            None => earlier,
        }
    }
}

/// The number of live rows.
pub open spec fn live_count(slots: Seq<SlotView>) -> nat {
    live_entries(slots).len()
}

/// The live rows, in id order.
pub open spec fn live_rows(slots: Seq<SlotView>) -> Seq<Seq<ValueView>> {
    live_entries(slots).map_values(|e: (int, Seq<ValueView>)| e.1)
}

/// The slots left by dropping every tombstone.
pub open spec fn compacted(slots: Seq<SlotView>) -> Seq<SlotView> {
    live_entries(slots).map_values(|e: (int, Seq<ValueView>)| Some(e.1))
}

/// Every live row of the table fits the table's schema.
pub open spec fn rows_fit(t: TableView) -> bool {
    forall|i: int| 0 <= i < t.slots.len() && (#[trigger] t.slots[i]) is Some ==> row_fits(
        t.schema,
        t.slots[i]->0,
    )
}

/// The models of a sequence of slots.
pub open spec fn slot_views(rows: Seq<Option<Row>>) -> Seq<SlotView> {
    rows.map_values(
        |o: Option<Row>|
            match o {
                Some(r) => Some(r@),
                None => None,
            },
    )
}

/// Appending a slot appends its row, if any, to the live rows.
pub proof fn lemma_live_entries_push(slots: Seq<SlotView>, s: SlotView)
    ensures
        live_entries(slots.push(s)) == (match s {
            Some(row) => live_entries(slots).push((slots.len() as int, row)),
            None => live_entries(slots),
        }),
{
    assert(slots.push(s).drop_last() =~= slots);
}

/// Appending a slot appends its row, if any, to the live rows and to the
/// compacted slots.
pub proof fn lemma_live_rows_push(slots: Seq<SlotView>, s: SlotView)
    ensures
        live_rows(slots.push(s)) == (match s {
            Some(row) => live_rows(slots).push(row),
            None => live_rows(slots),
        }),
        compacted(slots.push(s)) == (match s {
            Some(row) => compacted(slots).push(Some(row)),
            None => compacted(slots),
        }),
{
    lemma_live_entries_push(slots, s);
    assert(live_rows(slots.push(s)) =~= (match s {
        Some(row) => live_rows(slots).push(row),
        None => live_rows(slots),
    }));
    assert(compacted(slots.push(s)) =~= (match s {
        Some(row) => compacted(slots).push(Some(row)),
        None => compacted(slots),
    }));
}

/// Each live entry names a live slot and the row in it, the ids increase,
/// and every live slot has an entry.
pub proof fn lemma_live_entries_exact(slots: Seq<SlotView>)
    ensures
        forall|k: int|
            0 <= k < live_entries(slots).len() ==> {
                let e = #[trigger] live_entries(slots)[k];
                &&& 0 <= e.0 < slots.len()
                &&& slots[e.0] == Some(e.1)
            },
        forall|k: int, l: int|
            0 <= k < l < live_entries(slots).len() ==> #[trigger] live_entries(slots)[k].0
                < #[trigger] live_entries(slots)[l].0,
        forall|i: int|
            0 <= i < slots.len() && (#[trigger] slots[i]) is Some ==> exists|k: int|
                0 <= k < live_entries(slots).len() && (#[trigger] live_entries(slots)[k]).0 == i,
    decreases slots.len(),
{
    if slots.len() > 0 {
        let init = slots.drop_last();
        lemma_live_entries_exact(init);
        let e0 = live_entries(init);
        assert forall|i: int| 0 <= i < slots.len() && (#[trigger] slots[i]) is Some implies exists|k: int|
            0 <= k < live_entries(slots).len() && (#[trigger] live_entries(slots)[k]).0 == i by {
            if i < slots.len() - 1 {
                assert(init[i] == slots[i]);
                let k = choose|k: int| 0 <= k < e0.len() && (#[trigger] e0[k]).0 == i;
                assert(live_entries(slots)[k] == e0[k]);
            } else {
                assert(live_entries(slots)[e0.len() as int].0 == i);
            }
        }
    }
}

/// A row added to the slots is found again under the id it was given (the
/// number of slots before), the other ids keep their rows, and the live
/// count grows by one.
pub proof fn lemma_insert_then_get(slots: Seq<SlotView>, row: Seq<ValueView>)
    ensures
        slots.push(Some(row))[slots.len() as int] == Some(row),
        forall|j: int| 0 <= j < slots.len() ==> #[trigger] slots.push(Some(row))[j] == slots[j],
        live_count(slots.push(Some(row))) == live_count(slots) + 1,
{
    lemma_live_entries_push(slots, Some(row));
}

/// A live row replaced in place is found under the same id with its new
/// values; the other ids keep their rows and the live count stays.
pub proof fn lemma_update_then_get(slots: Seq<SlotView>, id: int, row: Seq<ValueView>)
    requires
        0 <= id < slots.len(),
        slots[id] is Some,
    ensures
        slots.update(id, Some(row))[id] == Some(row),
        forall|j: int| 0 <= j < slots.len() && j != id ==> #[trigger] slots.update(id, Some(row))[j] == slots[j],
        live_count(slots.update(id, Some(row))) == live_count(slots),
{
    lemma_live_count_update(slots, id, Some(row));
}

/// Deleting a live row empties only its own slot: every other id still
/// finds the row it found before, the number of slots stays, the live count
/// drops by one, and deleting the same id again finds nothing.
pub proof fn lemma_delete_keeps_ids(slots: Seq<SlotView>, id: int)
    requires
        0 <= id < slots.len(),
        slots[id] is Some,
    ensures
        slots.update(id, None).len() == slots.len(),
        forall|j: int| 0 <= j < slots.len() && j != id ==> #[trigger] slots.update(id, None)[j] == slots[j],
        slots.update(id, None)[id] is None,
        live_count(slots.update(id, None)) + 1 == live_count(slots),
{
    lemma_live_count_update(slots, id, None);
}

/// Dropping the tombstones keeps the live rows and their order; afterwards
/// every slot is live, so the live count equals the number of slots.
pub proof fn lemma_compact_keeps_rows(slots: Seq<SlotView>)
    ensures
        live_rows(compacted(slots)) == live_rows(slots),
        live_count(compacted(slots)) == live_count(slots),
        compacted(slots).len() == live_count(slots),
        forall|i: int| 0 <= i < compacted(slots).len() ==> (#[trigger] compacted(slots)[i]) is Some,
    decreases slots.len(),
{
    if slots.len() > 0 {
        let init = slots.drop_last();
        lemma_compact_keeps_rows(init);
        assert(slots =~= init.push(slots.last()));
        lemma_live_rows_push(init, slots.last());
        match slots.last() {
            Some(row) => {
                lemma_live_rows_push(compacted(init), Some(row));
                lemma_live_entries_push(compacted(init), Some(row));
            },
            None => {},
        }
    }
}

/// Once every slot is live, the live count is the number of slots.
pub proof fn lemma_live_count_all_live(slots: Seq<SlotView>)
    requires
        forall|i: int| 0 <= i < slots.len() ==> (#[trigger] slots[i]) is Some,
    ensures
        live_count(slots) == slots.len(),
    decreases slots.len(),
{
    if slots.len() > 0 {
        lemma_live_count_all_live(slots.drop_last());
    }
}

/// There are never more live rows than slots.
pub proof fn lemma_live_count_bound(slots: Seq<SlotView>)
    ensures
        live_count(slots) <= slots.len(),
    decreases slots.len(),
{
    if slots.len() > 0 {
        lemma_live_count_bound(slots.drop_last());
    }
}

/// Replacing one slot changes the live count by what left and what came.
pub proof fn lemma_live_count_update(slots: Seq<SlotView>, i: int, s: SlotView)
    requires
        0 <= i < slots.len(),
    ensures
        live_count(slots.update(i, s)) + (if slots[i] is Some {
            1int
        } else {
            0int
        }) == live_count(slots) + (if s is Some {
            1int
        } else {
            0int
        }),
    decreases slots.len(),
{
    let u = slots.update(i, s);
    if i == slots.len() - 1 {
        assert(u.drop_last() =~= slots.drop_last());
    } else {
        assert(u.drop_last() =~= slots.drop_last().update(i, s));
        lemma_live_count_update(slots.drop_last(), i, s);
    }
}

/// A table: a name, a schema, and its slots.
#[derive(Debug)]
pub struct Table {
    name: String,
    schema: Schema,
    rows: Vec<Option<Row>>,
    live_count: usize,
}

impl View for Table {
    type V = TableView;

    closed spec fn view(&self) -> TableView {
        TableView { name: self.name@, schema: self.schema@, slots: slot_views(self.rows@) }
    }
}

impl Clone for Table {
    /// A copy with the same name, schema and slots; a copy of a well-formed
    /// table is well formed.
    fn clone(&self) -> (r: Table)
        ensures
            r@ == self@,
            self.wf() ==> r.wf(),
    {
        let mut rows: Vec<Option<Row>> = Vec::new();
        let mut i: usize = 0;
        while i < self.rows.len()
            invariant
                0 <= i <= self.rows@.len(),
                rows@.len() == i,
                forall|k: int| 0 <= k < i ==> #[trigger] slot_views(rows@)[k] == slot_views(self.rows@)[k],
            decreases self.rows@.len() - i,
        {
            let slot = match &self.rows[i] {
                Some(row) => {
                    let c = row.clone();
                    assert(Some(c@) == slot_views(self.rows@)[i as int]);
                    Some(c)
                },
                None => {
                    assert(slot_views(self.rows@)[i as int] is None);
                    None
                },
            };
            let ghost before = rows@;
            rows.push(slot);
            assert forall|k: int| 0 <= k < i + 1 implies #[trigger] slot_views(rows@)[k] == slot_views(self.rows@)[k] by {
                if k < i {
                    assert(rows@[k] == before[k]);
                    assert(slot_views(before)[k] == slot_views(self.rows@)[k]);
                } else {
                    assert(rows@[k] == slot);
                }
            }
            i += 1;
        }
        assert(slot_views(rows@) =~= slot_views(self.rows@));
        Table {
            name: self.name.clone(),
            schema: self.schema.clone(),
            rows,
            live_count: self.live_count,
        }
    }
}

impl Table {
    /// The table's bookkeeping is consistent: the count of live rows is
    /// right, and every live row fits the schema.
    pub closed spec fn wf(&self) -> bool {
        &&& self.live_count == live_count(slot_views(self.rows@))
        &&& rows_fit(self@)
    }

    /// Every live row of a well-formed table fits its schema.
    pub proof fn lemma_rows_fit(&self)
        requires
            self.wf(),
        ensures
            rows_fit(self@),
    {
    }

    /// An empty table with the given name and schema.
    pub fn new(name: &str, schema: Schema) -> (r: Table)
        ensures
            r.wf(),
            r@ == (TableView { name: name@, schema: schema@, slots: Seq::empty() }),
    {
        let r = Table { name: text_to_string(name), schema, rows: Vec::new(), live_count: 0 };
        assert(slot_views(r.rows@) =~= Seq::empty());
        r
    }

    /// The name, spelled as it was given.
    pub fn name(&self) -> (r: &str)
        ensures
            r@ == self@.name,
    {
        self.name.as_str()
    }

    /// The schema.
    pub fn schema(&self) -> (r: &Schema)
        ensures
            r@ == self@.schema,
    {
        &self.schema
    }

    /// The number of live rows (deleted rows do not count).
    pub fn len(&self) -> (r: usize)
        requires
            self.wf(),
        ensures
            r == live_count(self@.slots),
    {
        self.live_count
    }

    /// Whether there are no live rows.
    pub fn is_empty(&self) -> (r: bool)
        requires
            self.wf(),
        ensures
            r == (live_count(self@.slots) == 0),
    {
        self.live_count == 0
    }

    /// The number of slots, live or deleted.
    pub fn slot_count(&self) -> (r: usize)
        ensures
            r == self@.slots.len(),
    {
        self.rows.len()
    }

    /// Adds a row after checking it against the schema; its id is the
    /// number of slots before the call. A refused row leaves the table as
    /// it was.
    pub fn insert(&mut self, values: Vec<Value>) -> (r: Result<usize, DbError>)
        requires
            old(self).wf(),
        ensures
            final(self).wf(),
            r is Ok <==> row_fits(old(self)@.schema, value_views(values@)),
            r matches Ok(id) ==> id == old(self)@.slots.len() && final(self)@ == (TableView {
                slots: old(self)@.slots.push(Some(value_views(values@))),
                ..old(self)@
            }),
            r matches Err(e) ==> row_error(old(self)@.schema, value_views(values@), e@)
                && final(self)@ == old(self)@,
    {
        match self.schema.validate_row(values.as_slice()) {
            Err(e) => Err(e),
            Ok(()) => {
                let id = self.rows.len();
                let ghost before = slot_views(self.rows@);
                proof {
                    lemma_live_count_bound(before);
                }
                self.rows.push(Some(Row(values)));
                // The slot count still fits a usize, so the live count
                // (never above the old slot count) can grow by one.
                let slots_after = self.rows.len();
                assert(slots_after == id + 1);
                proof {
                    assert(slot_views(self.rows@) =~= before.push(Some(value_views(values@))));
                    lemma_live_entries_push(before, Some(value_views(values@)));
                }
                self.live_count = self.live_count + 1;
                Ok(id)
            },
        }
    }

    /// Replaces the row with the given id after checking the new values
    /// against the schema. `Ok(true)` when a live row was replaced,
    /// `Ok(false)` when no live row has that id; a refused row or a missing
    /// id leaves the table as it was.
    pub fn update(&mut self, id: usize, values: Vec<Value>) -> (r: Result<bool, DbError>)
        requires
            old(self).wf(),
        ensures
            final(self).wf(),
            r is Ok <==> row_fits(old(self)@.schema, value_views(values@)),
            r matches Err(e) ==> row_error(old(self)@.schema, value_views(values@), e@),
            r matches Ok(b) ==> b == (id < old(self)@.slots.len() && old(self)@.slots[id as int] is Some),
            r == Ok::<bool, DbError>(true) ==> final(self)@ == (TableView {
                slots: old(self)@.slots.update(id as int, Some(value_views(values@))),
                ..old(self)@
            }),
            r != Ok::<bool, DbError>(true) ==> final(self)@ == old(self)@,
    {
        match self.schema.validate_row(values.as_slice()) {
            Err(e) => Err(e),
            Ok(()) => {
                if id < self.rows.len() && self.rows[id].is_some() {
                    let ghost before = slot_views(self.rows@);
                    self.rows[id] = Some(Row(values));
                    proof {
                        assert(slot_views(self.rows@) =~= before.update(
                            id as int,
                            Some(value_views(values@)),
                        ));
                        lemma_live_count_update(before, id as int, Some(value_views(values@)));
                    }
                    Ok(true)
                } else {
                    Ok(false)
                }
            },
        }
    }

    /// Deletes the row with the given id, leaving a tombstone in its slot.
    /// `true` when a live row was deleted; otherwise nothing changes.
    pub fn delete(&mut self, id: usize) -> (r: bool)
        requires
            old(self).wf(),
        ensures
            final(self).wf(),
            r == (id < old(self)@.slots.len() && old(self)@.slots[id as int] is Some),
            r ==> final(self)@ == (TableView {
                slots: old(self)@.slots.update(id as int, None),
                ..old(self)@
            }),
            !r ==> final(self)@ == old(self)@,
    {
        if id < self.rows.len() && self.rows[id].is_some() {
            let ghost before = slot_views(self.rows@);
            self.rows[id] = None;
            proof {
                assert(slot_views(self.rows@) =~= before.update(id as int, None));
                lemma_live_count_update(before, id as int, None);
            }
            self.live_count = self.live_count - 1;
            true
        } else {
            false
        }
    }

    /// The live row with the given id.
    pub fn get(&self, id: usize) -> (r: Option<&Row>)
        ensures
            r is Some <==> (id < self@.slots.len() && self@.slots[id as int] is Some),
            r matches Some(row) ==> self@.slots[id as int] == Some(row@),
    {
        if id < self.rows.len() {
            match &self.rows[id] {
                Some(row) => Some(row),
                None => None,
            }
        } else {
            None
        }
    }

    /// The live rows, in id order.
    pub fn iter(&self) -> (r: Vec<&Row>)
        ensures
            r@.map_values(|x: &Row| x@) == live_rows(self@.slots),
    {
        let mut r: Vec<&Row> = Vec::new();
        let ghost slots = slot_views(self.rows@);
        let mut i: usize = 0;
        while i < self.rows.len()
            invariant
                0 <= i <= self.rows@.len(),
                slots == slot_views(self.rows@),
                r@.map_values(|x: &Row| x@) == live_rows(slots.take(i as int)),
            decreases self.rows@.len() - i,
        {
            proof {
                assert(slots.take(i + 1) =~= slots.take(i as int).push(slots[i as int]));
                lemma_live_rows_push(slots.take(i as int), slots[i as int]);
            }
            let ghost before = r@;
            match &self.rows[i] {
                Some(row) => {
                    r.push(row);
                    assert(r@.map_values(|x: &Row| x@) =~= before.map_values(|x: &Row| x@).push(row@));
                },
                None => {},
            }
            i += 1;
        }
        assert(slots.take(i as int) =~= slots);
        r
    }

    /// The live rows with their ids, in id order.
    pub fn iter_with_ids(&self) -> (r: Vec<(usize, &Row)>)
        ensures
            r@.map_values(|p: (usize, &Row)| (p.0 as int, p.1@)) == live_entries(self@.slots),
    {
        let mut r: Vec<(usize, &Row)> = Vec::new();
        let ghost slots = slot_views(self.rows@);
        let mut i: usize = 0;
        while i < self.rows.len()
            invariant
                0 <= i <= self.rows@.len(),
                slots == slot_views(self.rows@),
                r@.map_values(|p: (usize, &Row)| (p.0 as int, p.1@)) == live_entries(
                    slots.take(i as int),
                ),
            decreases self.rows@.len() - i,
        {
            proof {
                assert(slots.take(i + 1) =~= slots.take(i as int).push(slots[i as int]));
                lemma_live_entries_push(slots.take(i as int), slots[i as int]);
            }
            match &self.rows[i] {
                Some(row) => {
                    r.push((i, row));
                },
                None => {},
            }
            i += 1;
            assert(r@.map_values(|p: (usize, &Row)| (p.0 as int, p.1@)) =~= live_entries(
                slots.take(i as int),
            ));
        }
        assert(slots.take(i as int) =~= slots);
        r
    }

    /// Drops every tombstone; the live rows keep their order and are
    /// renumbered from 0.
    pub fn compact(&mut self)
        requires
            old(self).wf(),
        ensures
            final(self).wf(),
            final(self)@ == (TableView { slots: compacted(old(self)@.slots), ..old(self)@ }),
    {
        let mut old_rows: Vec<Option<Row>> = Vec::new();
        std::mem::swap(&mut old_rows, &mut self.rows);
        let ghost slots = slot_views(old_rows@);
        let n = old_rows.len();
        let mut kept: Vec<Option<Row>> = Vec::new();
        let mut i: usize = 0;
        while i < n
            invariant
                0 <= i <= n,
                n == old_rows@.len(),
                slots.len() == n,
                forall|k: int| i <= k < n ==> slot_views(old_rows@)[k] == #[trigger] slots[k],
                slot_views(kept@) == compacted(slots.take(i as int)),
            decreases n - i,
        {
            proof {
                assert(slots.take(i + 1) =~= slots.take(i as int).push(slots[i as int]));
                lemma_live_rows_push(slots.take(i as int), slots[i as int]);
            }
            let ghost before_kept = kept@;
            let ghost before_old = old_rows@;
            let slot = old_rows[i].take();
            assert(old_rows@ == before_old.update(i as int, None));
            assert(slot_views(old_rows@) =~= slot_views(before_old).update(i as int, None));
            match slot {
                Some(row) => {
                    kept.push(Some(row));
                    assert(slot_views(kept@) =~= slot_views(before_kept).push(Some(row@)));
                },
                None => {},
            }
            i += 1;
        }
        assert(slots.take(n as int) =~= slots);
        proof {
            let c = compacted(slots);
            lemma_live_entries_exact(slots);
            assert forall|i: int| 0 <= i < c.len() implies (#[trigger] c[i]) is Some by {}
            lemma_live_count_all_live(c);
        }
        self.rows = kept;
        self.live_count = self.rows.len();
    }
}

} // verus!
