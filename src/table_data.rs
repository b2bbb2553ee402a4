use vstd::prelude::*;

use crate::edits::{
    clone_strings, column_values_map, conditions_equal, conditions_view, contains_string, event_well_formed,
    events_view, lemma_column_values_map_domain, lemma_column_values_map_push,
    lemma_column_values_map_remove, lemma_column_values_map_update, lemma_column_values_map_value,
    position_of_column,
    position_of_string, strings_view, ColumnValue, Condition, ConditionView, DataType, EventView,
    RowColumnValue, RowInsertData, TableDataChangeEvent,
};
use crate::pending_log::{
    delete_count, has_modify_of, insert_event_at, insert_event_indices, is_modify_of,
    lemma_delete_count_push, lemma_delete_count_remove, lemma_delete_count_update,
    insert_column_names, insert_data_types, inserts_carry_columns,
    lemma_insert_event_indices, merge_modify, merged_at, modify_conditions,
    modify_events_distinct, modify_events_non_empty, overwrite_column, overwrite_insert,
    pending_values, primary_key_conditions, primary_key_conditions_upto,
};

verus! {

/// Name, column names and column types of one table, as the catalog lists it.
#[derive(Debug, Clone)]
pub struct TableGeneral {
    pub table_name: String,
    pub column_names: Vec<String>,
    pub data_types: Vec<DataType>,
}

/// The last-fetched rows of one table. Each row holds one string-encoded value per
/// column, in column order; a row's position is its initial index.
#[derive(Debug, Clone)]
pub struct TableInsertedData {
    pub table_name: String,
    pub column_names: Vec<String>,
    pub data_types: Vec<DataType>,
    pub rows: Vec<Vec<String>>,
}

/// Mathematical value of a snapshot.
pub struct SnapshotView {
    pub table_name: Seq<char>,
    pub column_names: Seq<Seq<char>>,
    pub data_types: Seq<DataType>,
    pub rows: Seq<Seq<Seq<char>>>,
}

pub open spec fn rows_view(rows: Seq<Vec<String>>) -> Seq<Seq<Seq<char>>> {
    rows.map_values(|r: Vec<String>| strings_view(r@))
}

impl View for TableInsertedData {
    type V = SnapshotView;

    open spec fn view(&self) -> SnapshotView {
        SnapshotView {
            table_name: self.table_name@,
            column_names: strings_view(self.column_names@),
            data_types: self.data_types@,
            rows: rows_view(self.rows@),
        }
    }
}

/// Every row has one value per column, and every column a type.
pub open spec fn snapshot_well_formed(s: SnapshotView) -> bool {
    &&& s.data_types.len() == s.column_names.len()
    &&& forall|r: int| 0 <= r < s.rows.len() ==> (#[trigger] s.rows[r]).len() == s.column_names.len()
}

/// The primary-key condition of the snapshot row at initial index `initial`.
pub open spec fn row_conditions(
    s: SnapshotView,
    primary_keys: Seq<Seq<char>>,
    initial: int,
) -> Seq<ConditionView> {
    primary_key_conditions(s.column_names, s.data_types, s.rows[initial], primary_keys)
}

pub open spec fn table_names(catalog: Seq<TableGeneral>) -> Seq<Seq<char>> {
    catalog.map_values(|t: TableGeneral| t.table_name@)
}

/// Whether fetched `rows` can become the snapshot of catalog table `table_name`: the
/// catalog lists it, with one type per column, and each row has one value per column.
pub open spec fn table_installable(
    catalog: Seq<TableGeneral>,
    table_name: Seq<char>,
    rows: Seq<Seq<Seq<char>>>,
) -> bool {
    match table_names(catalog).index_of_first(table_name) {
        Some(i) => {
            &&& catalog[i].data_types@.len() == catalog[i].column_names@.len()
            &&& forall|j: int|
                0 <= j < rows.len() ==> (#[trigger] rows[j]).len() == catalog[i].column_names@.len()
        },
        None => false,
    }
}

/// The snapshot made of fetched `rows` of catalog table `table_name`.
pub open spec fn installed_snapshot(
    catalog: Seq<TableGeneral>,
    table_name: Seq<char>,
    rows: Seq<Seq<Seq<char>>>,
) -> SnapshotView {
    let i = table_names(catalog).index_of_first(table_name)->0;
    SnapshotView {
        table_name,
        column_names: strings_view(catalog[i].column_names@),
        data_types: catalog[i].data_types@,
        rows,
    }
}

/// The translator of a fresh snapshot of `n` rows: every row is shown at its initial index.
pub open spec fn identity_translator(n: nat) -> Seq<usize> {
    Seq::new(n, |k: int| k as usize)
}

/// The order in which a commit applies the log: inserts, then modifies, then deletes,
/// each kind in log order.
pub open spec fn commit_order(s: Seq<EventView>) -> Seq<EventView> {
    s.filter(|e: EventView| e is InsertRow) + s.filter(|e: EventView| e is ModifyRowColumnValue)
        + s.filter(|e: EventView| e is DeleteRow)
}

/// What a commit hands to the store: the table and the events to apply, in order.
#[derive(Debug)]
pub struct CommitBatch {
    pub table_name: String,
    pub events: Vec<TableDataChangeEvent>,
}

/// Failures of the catalog or the store, each with the store's message, and the refusal
/// of a commit requested while another is under way.
#[derive(Debug, Clone)]
pub enum TableDataError {
    CatalogLookupFailed(String),
    FetchFailed(String),
    WriteFailed(String),
    CommitInProgress,
}

/// The events of `events` for which `keep` holds, in order, copied.
fn copy_events_of_kind(
    events: &Vec<TableDataChangeEvent>,
    out: &mut Vec<TableDataChangeEvent>,
    kind: u8,
)
    requires
        kind < 3,
    ensures
        events_view(final(out)@) == events_view(old(out)@) + events_view(events@).filter(
            |e: EventView| kind_of(e) == kind,
        ),
{
    let ghost ev = events_view(events@);
    let ghost start = events_view(out@);
    let mut i: usize = 0;
    while i < events.len()
        invariant
            i <= events.len(),
            ev == events_view(events@),
            events_view(out@) == start + ev.subrange(0, i as int).filter(
                |e: EventView| kind_of(e) == kind,
            ),
        decreases events.len() - i,
    {
        let ghost before = events_view(out@);
        proof {
            assert(ev.subrange(0, i + 1).drop_last() =~= ev.subrange(0, i as int));
            assert(ev[i as int] == events@[i as int]@);
            reveal(Seq::filter);
        }
        let k: u8 = match &events[i] {
            TableDataChangeEvent::InsertRow(_) => 0,
            TableDataChangeEvent::ModifyRowColumnValue(_) => 1,
            TableDataChangeEvent::DeleteRow(_) => 2,
        };
        if k == kind {
            let e = events[i].duplicate();
            out.push(e);
            assert(events_view(out@) =~= before.push(e@));
        }
        i = i + 1;
    }
    assert(ev.subrange(0, ev.len() as int) =~= ev);
}

/// Kind of an event: 0 for an insert, 1 for a modify, 2 for a delete.
pub open spec fn kind_of(e: EventView) -> u8 {
    match e {
        EventView::InsertRow { .. } => 0,
        EventView::ModifyRowColumnValue { .. } => 1,
        EventView::DeleteRow { .. } => 2,
    }
}

/// A copy of the log in commit order.
fn ordered_for_commit(events: &Vec<TableDataChangeEvent>) -> (r: Vec<TableDataChangeEvent>)
    ensures
        events_view(r@) == commit_order(events_view(events@)),
{
    let mut r: Vec<TableDataChangeEvent> = Vec::new();
    copy_events_of_kind(events, &mut r, 0);
    copy_events_of_kind(events, &mut r, 1);
    copy_events_of_kind(events, &mut r, 2);
    let ghost ev = events_view(events@);
    assert((|e: EventView| kind_of(e) == 0) =~= (|e: EventView| e is InsertRow));
    assert((|e: EventView| kind_of(e) == 1) =~= (|e: EventView| e is ModifyRowColumnValue));
    assert((|e: EventView| kind_of(e) == 2) =~= (|e: EventView| e is DeleteRow));
    assert(events_view(Seq::<TableDataChangeEvent>::empty()) =~= Seq::<EventView>::empty());
    r
}

/// An editing session on one table: the snapshot, the pending edit log, the primary-key
/// column names captured with the snapshot, and the index translator, which maps each
/// current index of a snapshot row to its initial index.
#[derive(Debug)]
pub struct TableData {
    tables_general_info: Vec<TableGeneral>,
    table_inserted_data: Option<TableInsertedData>,
    table_data_change_events: Vec<TableDataChangeEvent>,
    primary_key_column_names: Vec<String>,
    current_to_initial_row_indexes: Vec<usize>,
    committing: bool,
}

impl TableData {
    pub closed spec fn snapshot(&self) -> Option<SnapshotView> {
        match self.table_inserted_data {
            Some(d) => Some(d@),
            None => None,
        }
    }

    /// The pending edit log.
    pub closed spec fn events(&self) -> Seq<EventView> {
        events_view(self.table_data_change_events@)
    }

    pub closed spec fn primary_keys(&self) -> Seq<Seq<char>> {
        strings_view(self.primary_key_column_names@)
    }

    /// The index translator: entry `k` is the initial index of the row shown at `k`.
    pub closed spec fn translator(&self) -> Seq<usize> {
        self.current_to_initial_row_indexes@
    }

    /// The tables known to the catalog.
    pub closed spec fn catalog(&self) -> Seq<TableGeneral> {
        self.tables_general_info@
    }

    pub closed spec fn is_committing(&self) -> bool {
        self.committing
    }

    /// The number of rows shown: the snapshot rows not deleted, then the pending inserts.
    pub open spec fn displayed_row_count(&self) -> int {
        self.row_count() - delete_count(self.events()) + insert_event_indices(self.events()).len()
    }

    /// The number of rows of the snapshot, zero without one.
    pub open spec fn row_count(&self) -> nat {
        match self.snapshot() {
            Some(s) => s.rows.len(),
            None => 0,
        }
    }

    /// The session's invariant.
    pub closed spec fn wf(&self) -> bool {
        self.wf_log() && self.wf_rows()
    }

    /// At most one modify event per row, none of them empty, and every pending insert
    /// laid out along the snapshot's columns and types.
    pub closed spec fn wf_log(&self) -> bool {
        &&& forall|i: int|
            0 <= i < self.table_data_change_events@.len() ==> event_well_formed(
                #[trigger] self.table_data_change_events@[i],
            )
        &&& modify_events_distinct(self.events())
        &&& modify_events_non_empty(self.events())
        &&& match self.snapshot() {
            Some(s) => inserts_carry_columns(self.events(), s.column_names, s.data_types),
            None => true,
        }
    }

    /// The snapshot's rows are well formed, and the translator maps each current index
    /// of a row not deleted to an initial index.
    pub closed spec fn wf_rows(&self) -> bool {
        match self.snapshot() {
            None => self.events().len() == 0 && self.translator().len() == 0,
            Some(s) => {
                &&& snapshot_well_formed(s)
                &&& delete_count(self.events()) <= s.rows.len()
                &&& self.translator().len() == s.rows.len() - delete_count(self.events())
                &&& forall|k: int|
                    0 <= k < self.translator().len() ==> #[trigger] self.translator()[k]
                        < s.rows.len()
            },
        }
    }

    /// Everything but the log and the translator is as in `other`.
    pub open spec fn same_table(&self, other: &TableData) -> bool {
        &&& self.snapshot() == other.snapshot()
        &&& self.primary_keys() == other.primary_keys()
        &&& self.is_committing() == other.is_committing()
        &&& self.catalog() == other.catalog()
    }

    pub fn new(tables_general_info: Vec<TableGeneral>) -> (r: Self)
        ensures
            r.wf(),
            r.snapshot() is None,
            r.events().len() == 0,
            r.primary_keys().len() == 0,
            r.translator().len() == 0,
            !r.is_committing(),
            r.catalog() == tables_general_info@,
    {
        let r = TableData {
            tables_general_info,
            table_inserted_data: None,
            table_data_change_events: Vec::new(),
            primary_key_column_names: Vec::new(),
            current_to_initial_row_indexes: Vec::new(),
            committing: false,
        };
        assert(r.events() =~= Seq::<EventView>::empty());
        r
    }

    /// Forgets the open table: no snapshot, no pending edits.
    pub fn reset_table_data(&mut self)
        ensures
            final(self).wf(),
            final(self).snapshot() is None,
            final(self).events().len() == 0,
            final(self).primary_keys().len() == 0,
            final(self).translator().len() == 0,
            final(self).is_committing() == old(self).is_committing(),
            final(self).catalog() == old(self).catalog(),
    {
        self.table_inserted_data = None;
        self.table_data_change_events = Vec::new();
        self.primary_key_column_names = Vec::new();
        self.current_to_initial_row_indexes = Vec::new();
        assert(self.events() =~= Seq::<EventView>::empty());
    }

    /// The primary-key condition of the snapshot row shown at `row_index`.
    fn get_primary_key_conditions(&self, row_index: usize) -> (r: Vec<Condition>)
        requires
            self.wf(),
            self.snapshot() is Some,
            row_index < self.translator().len(),
        ensures
            conditions_view(r@) == row_conditions(
                self.snapshot()->0,
                self.primary_keys(),
                self.translator()[row_index as int] as int,
            ),
    {
        let data = match &self.table_inserted_data {
            Some(d) => d,
            None => {
                return Vec::new();
            },
        };
        let initial = self.current_to_initial_row_indexes[row_index];
        proof {
            assert(rows_view(data.rows@)[initial as int] == strings_view(data.rows@[initial as int]@));
        }
        let row = &data.rows[initial];
        let ghost cols = strings_view(data.column_names@);
        let ghost rv = strings_view(row@);
        let mut r: Vec<Condition> = Vec::new();
        let mut k: usize = 0;
        while k < data.column_names.len()
            invariant
                k <= data.column_names.len(),
                data.data_types.len() == data.column_names.len(),
                row@.len() == data.column_names.len(),
                cols == strings_view(data.column_names@),
                rv == strings_view(row@),
                conditions_view(r@) == primary_key_conditions_upto(
                    cols,
                    data.data_types@,
                    rv,
                    self.primary_keys(),
                    k as int,
                ),
            decreases data.column_names.len() - k,
        {
            let ghost before = r@;
            if contains_string(&self.primary_key_column_names, &data.column_names[k]) {
                let c = Condition {
                    column_name: data.column_names[k].clone(),
                    data_type: data.data_types[k],
                    value: row[k].clone(),
                };
                r.push(c);
                assert(conditions_view(r@) =~= conditions_view(before).push(c@));
            }
            k = k + 1;
        }
        r
    }

    /// The log position of the pending insert shown at `row_index`, if it addresses one.
    fn find_existing_row_insert_event(&self, row_index: usize) -> (r: Option<usize>)
        requires
            self.wf(),
            self.snapshot() is Some,
        ensures
            match insert_event_at(self.row_count(), self.events(), row_index as int) {
                Some(p) => r == Some(p as usize),
                None => r is None,
            },
    {
        let data = match &self.table_inserted_data {
            Some(d) => d,
            None => {
                return None;
            },
        };
        let events = &self.table_data_change_events;
        let ghost ev = self.events();
        let mut deletes: usize = 0;
        let mut i: usize = 0;
        while i < events.len()
            invariant
                i <= events.len(),
                ev == events_view(events@),
                deletes == delete_count(ev.subrange(0, i as int)),
                deletes <= i,
            decreases events.len() - i,
        {
            proof {
                assert(ev.subrange(0, i + 1).drop_last() =~= ev.subrange(0, i as int));
            }
            if let TableDataChangeEvent::DeleteRow(_) = &events[i] {
                deletes = deletes + 1;
            }
            i = i + 1;
        }
        proof {
            assert(ev.subrange(0, ev.len() as int) =~= ev);
        }
        assert(data.rows@.len() == self.row_count());
        if row_index < data.rows.len() - deletes {
            return None;
        }
        let wanted = row_index - (data.rows.len() - deletes);
        let mut seen: usize = 0;
        let mut j: usize = 0;
        while j < events.len()
            invariant
                j <= events.len(),
                ev == events_view(events@),
                seen == insert_event_indices(ev.subrange(0, j as int)).len(),
                seen <= wanted,
                deletes == delete_count(ev),
                deletes <= data.rows.len(),
                row_index >= data.rows.len() - deletes,
                wanted == row_index - (data.rows.len() - deletes),
                data.rows@.len() == self.row_count(),
                ev == self.events(),
            decreases events.len() - j,
        {
            proof {
                assert(ev.subrange(0, j + 1).drop_last() =~= ev.subrange(0, j as int));
            }
            if let TableDataChangeEvent::InsertRow(_) = &events[j] {
                if seen == wanted {
                    proof {
                        let full = insert_event_indices(ev);
                        let pre = insert_event_indices(ev.subrange(0, j + 1));
                        assert(ev[j as int] is InsertRow);
                        assert(ev.subrange(0, j + 1).last() == ev[j as int]);
                        assert(pre[seen as int] == j);
                        lemma_insert_event_indices_prefix(ev, j + 1);
                    }
                    return Some(j);
                }
                seen = seen + 1;
            }
            j = j + 1;
        }
        proof {
            assert(ev.subrange(0, ev.len() as int) =~= ev);
        }
        None
    }

    /// Stages a new row. Its current index is the number of shown snapshot rows plus the
    /// number of inserts already pending.
    pub fn add_insert_row_event(&mut self, values: Vec<String>)
        requires
            old(self).wf(),
        ensures
            final(self).wf(),
            final(self).same_table(old(self)),
            final(self).translator() == old(self).translator(),
            final(self).events() == match old(self).snapshot() {
                Some(s) => old(self).events().push(
                    EventView::InsertRow {
                        column_names: s.column_names,
                        data_types: s.data_types,
                        values: strings_view(values@),
                    },
                ),
                None => old(self).events(),
            },
    {
        let data = match &self.table_inserted_data {
            Some(d) => d,
            None => {
                return;
            },
        };
        let e = TableDataChangeEvent::InsertRow(
            RowInsertData {
                column_names: clone_strings(&data.column_names),
                data_types: data.data_types.clone(),
                values,
            },
        );
        self.push_event(e);
    }

    /// The log after `add_delete_row_event(row_index)`: a pending insert shown there is
    /// dropped; a snapshot row shown there gets a delete event keyed by its primary-key
    /// condition; any other index leaves the log as it is.
    pub open spec fn log_after_delete(&self, row_index: int) -> Seq<EventView> {
        match self.snapshot() {
            None => self.events(),
            Some(s) => match insert_event_at(s.rows.len(), self.events(), row_index) {
                Some(p) => self.events().remove(p),
                None => if 0 <= row_index < self.translator().len() {
                    self.events().push(
                        EventView::DeleteRow {
                            conditions: row_conditions(
                                s,
                                self.primary_keys(),
                                self.translator()[row_index] as int,
                            ),
                        },
                    )
                } else {
                    self.events()
                },
            },
        }
    }

    /// The translator after `add_delete_row_event(row_index)`: when a snapshot row is
    /// deleted, every later row moves up by one.
    pub open spec fn translator_after_delete(&self, row_index: int) -> Seq<usize> {
        if self.snapshot() is Some && insert_event_at(self.row_count(), self.events(), row_index)
            is None && 0 <= row_index < self.translator().len() {
            self.translator().remove(row_index)
        } else {
            self.translator()
        }
    }

    /// Deletes the row shown at `row_index`.
    pub fn add_delete_row_event(&mut self, row_index: usize)
        requires
            old(self).wf(),
        ensures
            final(self).wf(),
            final(self).same_table(old(self)),
            final(self).events() == old(self).log_after_delete(row_index as int),
            final(self).translator() == old(self).translator_after_delete(row_index as int),
    {
        if self.table_inserted_data.is_none() {
            return;
        }
        match self.find_existing_row_insert_event(row_index) {
            Some(p) => {
                let n = self.table_data_change_events.len();
                proof {
                    let ev = self.events();
                    assert(ev.len() == n);
                    lemma_insert_event_indices(ev);
                    let k = row_index - (self.row_count() - delete_count(ev));
                    let q = insert_event_at(self.row_count(), ev, row_index as int);
                    assert(q is Some);
                    assert(0 <= k < insert_event_indices(ev).len());
                    assert(q->0 == insert_event_indices(ev)[k]);
                    assert(0 <= q->0 < ev.len());
                    assert(q->0 == p);
                }
                self.remove_event(p);
                return;
            },
            None => {},
        }
        if row_index >= self.current_to_initial_row_indexes.len() {
            return;
        }
        let conditions = self.get_primary_key_conditions(row_index);
        self.push_event(TableDataChangeEvent::DeleteRow(conditions));
        let ghost t = self.translator();
        self.current_to_initial_row_indexes.remove(row_index);
        proof {
            lemma_delete_count_push(old(self).events(), self.events().last());
            assert(self.events() =~= old(self).events().push(self.events().last()));
            assert forall|k: int| 0 <= k < self.translator().len() implies #[trigger] self.translator()[k]
                < self.row_count() by {
                if k < row_index {
                    assert(self.translator()[k] == t[k]);
                } else {
                    assert(self.translator()[k] == t[k + 1]);
                }
            }
        }
    }

    /// The log after `add_modify_row_column_value_event(row_index, column, value)`: a
    /// pending insert shown there takes the value in place; for a snapshot row shown there
    /// and a known column the change is merged by `merge_modify`, keyed by the row's
    /// primary-key condition and compared with the row's snapshot value; any other call
    /// leaves the log as it is.
    pub open spec fn log_after_modify(&self, row_index: int, column: Seq<char>, value: Seq<char>) -> Seq<
        EventView,
    > {
        match self.snapshot() {
            None => self.events(),
            Some(s) => match insert_event_at(s.rows.len(), self.events(), row_index) {
                Some(p) => self.events().update(
                    p,
                    overwrite_insert(self.events()[p], s.column_names, column, value),
                ),
                None => if 0 <= row_index < self.translator().len() {
                    match s.column_names.index_of_first(column) {
                        Some(k) => {
                            let initial = self.translator()[row_index] as int;
                            merge_modify(
                                self.events(),
                                row_conditions(s, self.primary_keys(), initial),
                                column,
                                s.data_types[k],
                                value,
                                s.rows[initial][k],
                            )
                        },
                        None => self.events(),
                    }
                } else {
                    self.events()
                },
            },
        }
    }

    /// Sets `column_name` to `new_value` in the row shown at `row_index`.
    pub fn add_modify_row_column_value_event(
        &mut self,
        row_index: usize,
        column_name: String,
        new_value: String,
    )
        requires
            old(self).wf(),
        ensures
            final(self).wf(),
            final(self).same_table(old(self)),
            final(self).translator() == old(self).translator(),
            final(self).events() == old(self).log_after_modify(
                row_index as int,
                column_name@,
                new_value@,
            ),
    {
        if self.table_inserted_data.is_none() {
            return;
        }
        match self.find_existing_row_insert_event(row_index) {
            Some(p) => {
                let n = self.table_data_change_events.len();
                proof {
                    let ev = self.events();
                    assert(ev.len() == n);
                    lemma_insert_event_indices(ev);
                    let k = row_index - (self.row_count() - delete_count(ev));
                    let q = insert_event_at(self.row_count(), ev, row_index as int);
                    assert(q is Some);
                    assert(0 <= k < insert_event_indices(ev).len());
                    assert(q->0 == insert_event_indices(ev)[k]);
                    assert(0 <= q->0 < ev.len());
                    assert(q->0 == p);
                }
                self.update_existing_insert_row_event(p, &column_name, &new_value);
                return;
            },
            None => {},
        }
        if row_index >= self.current_to_initial_row_indexes.len() {
            return;
        }
        let data = match &self.table_inserted_data {
            Some(d) => d,
            None => {
                return;
            },
        };
        let k = match position_of_string(&data.column_names, &column_name) {
            Some(k) => k,
            None => {
                return;
            },
        };
        let initial = self.current_to_initial_row_indexes[row_index];
        proof {
            let sv = data@;
            strings_view(data.column_names@).index_of_first_ensures(column_name@);
            assert(sv.rows[initial as int] == strings_view(data.rows@[initial as int]@));
            assert(sv.rows[initial as int].len() == sv.column_names.len());
        }
        let data_type = data.data_types[k];
        let original = data.rows[initial][k].clone();
        let conditions = self.get_primary_key_conditions(row_index);
        match self.find_existing_modify_row_event(&conditions) {
            Some(m) => {
                proof {
                    let ev = self.events();
                    let cv = conditions_view(conditions@);
                    let m2 = choose|m2: int| 0 <= m2 < ev.len() && #[trigger] is_modify_of(ev[m2], cv);
                    assert(ev[m2] is ModifyRowColumnValue && ev[m as int] is ModifyRowColumnValue);
                    if m2 < m {
                        assert(modify_conditions(ev[m2]) != modify_conditions(ev[m as int]));
                    }
                    if m2 > m {
                        assert(modify_conditions(ev[m as int]) != modify_conditions(ev[m2]));
                    }
                }
                self.update_modify_row_event(m, column_name, new_value, data_type, &original);
            },
            None => {
                if new_value == original {
                    return;
                }
                let mut column_values: Vec<ColumnValue> = Vec::new();
                let entry = ColumnValue { column_name, data_type, value: new_value };
                proof {
                    lemma_column_values_map_push(column_values@, entry);
                }
                column_values.push(entry);
                proof {
                    assert(column_values_map(column_values@).contains_key(entry.column_name@));
                }
                self.push_event(
                    TableDataChangeEvent::ModifyRowColumnValue(
                        RowColumnValue { conditions, column_values },
                    ),
                );
            },
        }
    }

    /// The position of the modify event keyed by `conditions`, if there is one.
    fn find_existing_modify_row_event(&self, conditions: &Vec<Condition>) -> (r: Option<usize>)
        ensures
            match r {
                Some(m) => m < self.events().len() && is_modify_of(
                    self.events()[m as int],
                    conditions_view(conditions@),
                ) && forall|j: int|
                    0 <= j < m ==> !#[trigger] is_modify_of(
                        self.events()[j],
                        conditions_view(conditions@),
                    ),
                None => !has_modify_of(self.events(), conditions_view(conditions@)),
            },
    {
        let events = &self.table_data_change_events;
        let ghost ev = self.events();
        let ghost cv = conditions_view(conditions@);
        let mut i: usize = 0;
        while i < events.len()
            invariant
                i <= events.len(),
                ev == events_view(events@),
                ev == self.events(),
                cv == conditions_view(conditions@),
                forall|j: int| 0 <= j < i ==> !#[trigger] is_modify_of(ev[j], cv),
            decreases events.len() - i,
        {
            assert(ev[i as int] == events@[i as int]@);
            if let TableDataChangeEvent::ModifyRowColumnValue(r) = &events[i] {
                if conditions_equal(&r.conditions, conditions) {
                    return Some(i);
                }
            }
            i = i + 1;
        }
        None
    }

    /// Sets `column_name` to `new_value` in the pending insert at log position `p`, at the
    /// snapshot column of that name; any other position leaves the log as it is.
    fn update_existing_insert_row_event(&mut self, p: usize, column_name: &String, new_value: &String)
        requires
            old(self).wf(),
        ensures
            final(self).wf(),
            final(self).same_table(old(self)),
            final(self).translator() == old(self).translator(),
            p < old(self).events().len() && old(self).events()[p as int] is InsertRow
                ==> final(self).events() == old(self).events().update(
                p as int,
                overwrite_insert(
                    old(self).events()[p as int],
                    old(self).snapshot()->0.column_names,
                    column_name@,
                    new_value@,
                ),
            ),
            !(p < old(self).events().len() && old(self).events()[p as int] is InsertRow)
                ==> final(self).events() == old(self).events(),
    {
        if p >= self.table_data_change_events.len() {
            return;
        }
        let ghost ev = self.events();
        assert(ev[p as int] == self.table_data_change_events@[p as int]@);
        let e = match &self.table_data_change_events[p] {
            TableDataChangeEvent::InsertRow(d) => {
                let ghost target = overwrite_column(
                    strings_view(d.column_names@),
                    strings_view(d.values@),
                    column_name@,
                    new_value@,
                );
                let mut values: Vec<String> = Vec::new();
                let mut k: usize = 0;
                while k < d.values.len()
                    invariant
                        k <= d.values.len(),
                        values@.len() == k,
                        target.len() == d.values@.len(),
                        target == overwrite_column(
                            strings_view(d.column_names@),
                            strings_view(d.values@),
                            column_name@,
                            new_value@,
                        ),
                        forall|j: int| 0 <= j < k ==> #[trigger] values@[j]@ == target[j],
                    decreases d.values.len() - k,
                {
                    if k < d.column_names.len() && d.column_names[k] == *column_name {
                        values.push(new_value.clone());
                    } else {
                        values.push(d.values[k].clone());
                    }
                    k = k + 1;
                }
                assert(strings_view(values@) =~= target);
                TableDataChangeEvent::InsertRow(
                    RowInsertData {
                        column_names: clone_strings(&d.column_names),
                        data_types: d.data_types.clone(),
                        values,
                    },
                )
            },
            _ => {
                return;
            },
        };
        self.replace_event(p, e);
    }

    /// Merges a change of `column_name` into the modify event at log position `m`, whose
    /// row holds `original` in that column.
    fn update_modify_row_event(
        &mut self,
        m: usize,
        column_name: String,
        new_value: String,
        data_type: DataType,
        original: &String,
    )
        requires
            old(self).wf(),
        ensures
            final(self).wf(),
            final(self).same_table(old(self)),
            final(self).translator() == old(self).translator(),
            m < old(self).events().len() && old(self).events()[m as int] is ModifyRowColumnValue
                ==> final(self).events() == merged_at(
                old(self).events(),
                m as int,
                column_name@,
                data_type,
                new_value@,
                original@,
            ),
            !(m < old(self).events().len() && old(self).events()[m as int] is ModifyRowColumnValue)
                ==> final(self).events() == old(self).events(),
    {
        if m >= self.table_data_change_events.len() {
            return;
        }
        let ghost ev = self.events();
        assert(ev[m as int] == self.table_data_change_events@[m as int]@);
        assert(event_well_formed(self.table_data_change_events@[m as int]));
        let e = self.table_data_change_events[m].duplicate();
        let r = match e {
            TableDataChangeEvent::ModifyRowColumnValue(r) => r,
            _ => {
                return;
            },
        };
        let ghost old_map = column_values_map(r.column_values@);
        let ghost c = column_name@;
        let ghost v = new_value@;
        let mut column_values = r.column_values;
        let pos = position_of_column(&column_values, &column_name);
        if new_value == *original {
            match pos {
                Some(q) => {
                    proof {
                        lemma_column_values_map_remove(column_values@, q as int);
                    }
                    column_values.remove(q);
                },
                None => {
                    assert(old_map.remove(c) =~= old_map);
                },
            }
        } else {
            let entry = ColumnValue { column_name, data_type, value: new_value };
            match pos {
                Some(q) => {
                    proof {
                        lemma_column_values_map_update(column_values@, q as int, entry);
                    }
                    let ghost before = column_values@;
                    column_values.remove(q);
                    column_values.insert(q, entry);
                    assert(column_values@ =~= before.update(q as int, entry));
                },
                None => {
                    proof {
                        lemma_column_values_map_push(column_values@, entry);
                    }
                    column_values.push(entry);
                },
            }
        }
        let ghost new_map = column_values_map(column_values@);
        if column_values.len() == 0 {
            assert(new_map =~= Map::<Seq<char>, (DataType, Seq<char>)>::empty());
            self.remove_event(m);
        } else {
            proof {
                lemma_column_values_map_domain(column_values@, column_values@[0].column_name@);
                assert(new_map.contains_key(column_values@[0].column_name@));
            }
            self.replace_event(
                m,
                TableDataChangeEvent::ModifyRowColumnValue(
                    RowColumnValue { conditions: r.conditions, column_values },
                ),
            );
        }
    }

    /// The position of `table_name` in the catalog.
    pub fn find_table(&self, table_name: &String) -> (r: Option<usize>)
        ensures
            match r {
                Some(i) => table_names(self.catalog()).index_of_first(table_name@) == Some(
                    i as int,
                ),
                None => table_names(self.catalog()).index_of_first(table_name@) is None,
            },
    {
        let ghost names = table_names(self.catalog());
        let mut i: usize = 0;
        while i < self.tables_general_info.len()
            invariant
                i <= self.tables_general_info.len(),
                names == table_names(self.catalog()),
                forall|j: int| 0 <= j < i ==> names[j] != table_name@,
            decreases self.tables_general_info.len() - i,
        {
            if self.tables_general_info[i].table_name == *table_name {
                proof {
                    names.index_of_first_ensures(table_name@);
                    assert(names[i as int] == table_name@);
                    let k = names.index_of_first(table_name@)->0;
                    if k < i {
                        assert(names[k] != table_name@);
                    }
                }
                return Some(i);
            }
            i = i + 1;
        }
        proof {
            names.index_of_first_ensures(table_name@);
        }
        None
    }

    /// The catalog's tables.
    pub fn tables_general_info(&self) -> (r: &Vec<TableGeneral>)
        ensures
            r@ == self.catalog(),
    {
        &self.tables_general_info
    }

    /// Installs freshly fetched rows of the catalog table `table_name`, with the
    /// primary-key column names fetched with them: the rows become the snapshot, the log
    /// is cleared and the translator is the identity. Nothing changes, and the result is
    /// false, when the catalog has no such table or a row does not hold one value per
    /// column.
    pub fn set_table_data(
        &mut self,
        table_name: String,
        primary_key_column_names: Vec<String>,
        rows: Vec<Vec<String>>,
    ) -> (r: bool)
        requires
            old(self).wf(),
        ensures
            final(self).wf(),
            final(self).catalog() == old(self).catalog(),
            final(self).is_committing() == old(self).is_committing(),
            r == table_installable(old(self).catalog(), table_name@, rows_view(rows@)),
            r ==> final(self).snapshot() == Some(
                installed_snapshot(old(self).catalog(), table_name@, rows_view(rows@)),
            ) && final(self).events().len() == 0 && final(self).primary_keys() == strings_view(
                primary_key_column_names@,
            ) && final(self).translator() == identity_translator(rows@.len()),
            !r ==> final(self).snapshot() == old(self).snapshot() && final(self).events()
                == old(self).events() && final(self).primary_keys() == old(self).primary_keys()
                && final(self).translator() == old(self).translator(),
    {
        let i = match self.find_table(&table_name) {
            Some(i) => i,
            None => {
                return false;
            },
        };
        proof {
            table_names(self.catalog()).index_of_first_ensures(table_name@);
        }
        let info = &self.tables_general_info[i];
        if info.data_types.len() != info.column_names.len() {
            return false;
        }
        let mut k: usize = 0;
        while k < rows.len()
            invariant
                k <= rows.len(),
                old(self).wf(),
                *self == *old(self),
                *info == self.catalog()[i as int],
                i < self.catalog().len(),
                table_names(self.catalog()).index_of_first(table_name@) == Some(i as int),
                forall|j: int| 0 <= j < k ==> (#[trigger] rows@[j]).len() == info.column_names@.len(),
            decreases rows.len() - k,
        {
            if rows[k].len() != info.column_names.len() {
                proof {
                    let rv = rows_view(rows@);
                    assert(rv[k as int].len() == rows@[k as int].len());
                }
                return false;
            }
            k = k + 1;
        }
        proof {
            let rv = rows_view(rows@);
            assert forall|j: int| 0 <= j < rv.len() implies (#[trigger] rv[j]).len()
                == strings_view(info.column_names@).len() by {
                assert(rows@[j].len() == info.column_names@.len());
            }
        }
        let data = TableInsertedData {
            table_name,
            column_names: clone_strings(&info.column_names),
            data_types: info.data_types.clone(),
            rows,
        };
        let mut translator: Vec<usize> = Vec::new();
        let mut n: usize = 0;
        while n < data.rows.len()
            invariant
                n <= data.rows.len(),
                translator@ == identity_translator(n as nat),
            decreases data.rows.len() - n,
        {
            translator.push(n);
            n = n + 1;
            assert(translator@ =~= identity_translator(n as nat));
        }
        self.table_inserted_data = Some(data);
        self.table_data_change_events = Vec::new();
        self.primary_key_column_names = primary_key_column_names;
        self.current_to_initial_row_indexes = translator;
        assert(self.events() =~= Seq::<EventView>::empty());
        true
    }

    /// Starts a commit: when a table is open and no commit is under way, the session
    /// enters the committing state and hands out the batch to apply, which names the
    /// table and holds the log's inserts, then its modifies, then its deletes. Otherwise
    /// nothing changes and the result is `None`. The log itself stays as it is.
    pub fn begin_commit(&mut self) -> (r: Option<CommitBatch>)
        requires
            old(self).wf(),
        ensures
            final(self).wf(),
            final(self).events() == old(self).events(),
            final(self).translator() == old(self).translator(),
            final(self).snapshot() == old(self).snapshot(),
            final(self).primary_keys() == old(self).primary_keys(),
            final(self).catalog() == old(self).catalog(),
            r is None <==> (old(self).is_committing() || old(self).snapshot() is None),
            r is None ==> final(self).is_committing() == old(self).is_committing(),
            r matches Some(b) ==> final(self).is_committing() && b.table_name@ == old(
                self,
            ).snapshot()->0.table_name && events_view(b.events@) == commit_order(
                old(self).events(),
            ),
    {
        if self.committing {
            return None;
        }
        let table_name = match &self.table_inserted_data {
            Some(d) => d.table_name.clone(),
            None => {
                return None;
            },
        };
        let events = ordered_for_commit(&self.table_data_change_events);
        self.committing = true;
        Some(CommitBatch { table_name, events })
    }

    /// Ends a commit whose batch was applied: installs the rows fetched afterwards, as
    /// `set_table_data` does for the open table, and leaves the committing state. The
    /// result is false, with nothing but the state changed, when no commit was under way
    /// or the rows cannot be installed.
    pub fn commit_succeeded(
        &mut self,
        primary_key_column_names: Vec<String>,
        rows: Vec<Vec<String>>,
    ) -> (r: bool)
        requires
            old(self).wf(),
        ensures
            final(self).wf(),
            !final(self).is_committing(),
            final(self).catalog() == old(self).catalog(),
            r == (old(self).is_committing() && old(self).snapshot() is Some && table_installable(
                old(self).catalog(),
                old(self).snapshot()->0.table_name,
                rows_view(rows@),
            )),
            r ==> final(self).events().len() == 0 && final(self).snapshot() == Some(
                installed_snapshot(
                    old(self).catalog(),
                    old(self).snapshot()->0.table_name,
                    rows_view(rows@),
                ),
            ) && final(self).primary_keys() == strings_view(primary_key_column_names@)
                && final(self).translator() == identity_translator(rows@.len()),
            !r ==> final(self).snapshot() == old(self).snapshot() && final(self).events()
                == old(self).events() && final(self).primary_keys() == old(self).primary_keys()
                && final(self).translator() == old(self).translator(),
    {
        if !self.committing {
            return false;
        }
        self.committing = false;
        let table_name = match &self.table_inserted_data {
            Some(d) => d.table_name.clone(),
            None => {
                return false;
            },
        };
        self.set_table_data(table_name, primary_key_column_names, rows)
    }

    /// Ends a commit that the store refused: the log stays exactly as it was and the
    /// session leaves the committing state. The result is the write error to report.
    pub fn commit_failed(&mut self, message: String) -> (r: TableDataError)
        requires
            old(self).wf(),
        ensures
            final(self).wf(),
            !final(self).is_committing(),
            final(self).events() == old(self).events(),
            final(self).translator() == old(self).translator(),
            final(self).snapshot() == old(self).snapshot(),
            final(self).primary_keys() == old(self).primary_keys(),
            final(self).catalog() == old(self).catalog(),
            r matches TableDataError::WriteFailed(m) && m@ == message@,
    {
        self.committing = false;
        TableDataError::WriteFailed(message)
    }

    /// The row shown at current index `k` of a snapshot row: its snapshot values, with
    /// each column that its modify event changes showing the pending value.
    pub open spec fn displayed_snapshot_row(&self, k: int) -> Seq<Seq<char>> {
        let s = self.snapshot()->0;
        let initial = self.translator()[k] as int;
        let row = s.rows[initial];
        let cond = row_conditions(s, self.primary_keys(), initial);
        if has_modify_of(self.events(), cond) {
            let m = choose|m: int|
                0 <= m < self.events().len() && #[trigger] is_modify_of(self.events()[m], cond);
            let changes = pending_values(self.events()[m]);
            Seq::new(
                row.len(),
                |c: int|
                    if changes.contains_key(s.column_names[c]) {
                        changes[s.column_names[c]].1
                    } else {
                        row[c]
                    },
            )
        } else {
            row
        }
    }

    /// The values of the pending insert shown `j` rows after the snapshot rows.
    pub open spec fn displayed_insert_row(&self, j: int) -> Seq<Seq<char>> {
        match self.events()[insert_event_indices(self.events())[j]] {
            EventView::InsertRow { values, .. } => values,
            _ => Seq::empty(),
        }
    }

    /// The rows as shown: the snapshot rows not deleted, in current-index order and with
    /// their pending changes, then the values of the pending inserts in log order.
    pub fn displayed_rows(&self) -> (r: Vec<Vec<String>>)
        requires
            self.wf(),
        ensures
            self.snapshot() is None ==> r@.len() == 0,
            self.snapshot() is Some ==> {
                &&& r@.len() == self.displayed_row_count()
                &&& forall|k: int|
                    0 <= k < self.translator().len() ==> #[trigger] rows_view(r@)[k]
                        == self.displayed_snapshot_row(k)
                &&& forall|j: int|
                    0 <= j < insert_event_indices(self.events()).len() ==> #[trigger] rows_view(
                        r@,
                    )[self.translator().len() + j] == self.displayed_insert_row(j)
            },
    {
        let mut r: Vec<Vec<String>> = Vec::new();
        let data = match &self.table_inserted_data {
            Some(d) => d,
            None => {
                return r;
            },
        };
        let mut k: usize = 0;
        while k < self.current_to_initial_row_indexes.len()
            invariant
                self.wf(),
                self.table_inserted_data == Some(*data),
                k <= self.translator().len(),
                r@.len() == k,
                forall|i: int| 0 <= i < k ==> #[trigger] rows_view(r@)[i] == self.displayed_snapshot_row(i),
            decreases self.translator().len() - k,
        {
            let row = self.displayed_row_at(k);
            let ghost before = r@;
            r.push(row);
            proof {
                assert forall|i: int| 0 <= i < k + 1 implies #[trigger] rows_view(r@)[i]
                    == self.displayed_snapshot_row(i) by {
                    if i < k {
                        assert(r@[i] == before[i]);
                        assert(rows_view(before)[i] == strings_view(before[i]@));
                    }
                }
            }
            k = k + 1;
        }
        let ghost ev = self.events();
        let ghost base = self.translator().len();
        let mut i: usize = 0;
        while i < self.table_data_change_events.len()
            invariant
                self.wf(),
                ev == self.events(),
                ev == events_view(self.table_data_change_events@),
                base == self.translator().len(),
                i <= ev.len(),
                r@.len() == base + insert_event_indices(ev.subrange(0, i as int)).len(),
                forall|q: int| 0 <= q < base ==> #[trigger] rows_view(r@)[q] == self.displayed_snapshot_row(q),
                forall|j: int|
                    0 <= j < insert_event_indices(ev.subrange(0, i as int)).len() ==> #[trigger] rows_view(
                        r@,
                    )[base + j] == self.displayed_insert_row(j),
            decreases ev.len() - i,
        {
            let ghost before = r@;
            proof {
                assert(ev.subrange(0, i + 1).drop_last() =~= ev.subrange(0, i as int));
                assert(ev[i as int] == self.table_data_change_events@[i as int]@);
                lemma_insert_event_indices_prefix(ev, i + 1);
                lemma_insert_event_indices_prefix(ev, i as int);
            }
            if let TableDataChangeEvent::InsertRow(d) = &self.table_data_change_events[i] {
                let values = clone_strings(&d.values);
                r.push(values);
                proof {
                    let pre = insert_event_indices(ev.subrange(0, i as int));
                    let j0 = pre.len() as int;
                    assert(insert_event_indices(ev.subrange(0, i + 1)) == pre.push(i as int));
                    assert(insert_event_indices(ev)[j0] == i);
                    assert forall|j: int|
                        0 <= j < j0 + 1 implies #[trigger] rows_view(r@)[base + j] == self.displayed_insert_row(j) by {
                        assert(rows_view(r@)[base + j] == strings_view(r@[base + j]@));
                        if j < j0 {
                            assert(r@[base + j] == before[base + j]);
                            assert(rows_view(before)[base + j] == strings_view(before[base + j]@));
                        } else {
                            assert(r@[base + j] == values);
                            assert(ev[i as int] == self.table_data_change_events@[i as int]@);
                        }
                    }
                    assert forall|q: int| 0 <= q < base implies #[trigger] rows_view(r@)[q]
                        == self.displayed_snapshot_row(q) by {
                        assert(r@[q] == before[q]);
                        assert(rows_view(r@)[q] == strings_view(r@[q]@));
                        assert(rows_view(before)[q] == strings_view(before[q]@));
                    }
                }
            }
            i = i + 1;
        }
        proof {
            assert(ev.subrange(0, ev.len() as int) =~= ev);
        }
        r
    }

    /// The row shown at current index `k` of a snapshot row.
    fn displayed_row_at(&self, k: usize) -> (r: Vec<String>)
        requires
            self.wf(),
            self.snapshot() is Some,
            k < self.translator().len(),
        ensures
            strings_view(r@) == self.displayed_snapshot_row(k as int),
    {
        let data = match &self.table_inserted_data {
            Some(d) => d,
            None => {
                return Vec::new();
            },
        };
        let initial = self.current_to_initial_row_indexes[k];
        let ghost sv = data@;
        proof {
            assert(sv.rows[initial as int] == strings_view(data.rows@[initial as int]@));
        }
        let row = &data.rows[initial];
        let conditions = self.get_primary_key_conditions(k);
        let m = match self.find_existing_modify_row_event(&conditions) {
            Some(m) => m,
            None => {
                return clone_strings(row);
            },
        };
        let ghost ev = self.events();
        let ghost cond = conditions_view(conditions@);
        proof {
            let m2 = choose|m2: int| 0 <= m2 < ev.len() && #[trigger] is_modify_of(ev[m2], cond);
            lemma_modify_unique(ev, m as int, m2, cond);
            assert(ev[m as int] == self.table_data_change_events@[m as int]@);
            assert(event_well_formed(self.table_data_change_events@[m as int]));
        }
        let cvs = match &self.table_data_change_events[m] {
            TableDataChangeEvent::ModifyRowColumnValue(rcv) => &rcv.column_values,
            _ => {
                return clone_strings(row);
            },
        };
        let ghost changes = column_values_map(cvs@);
        let ghost target = self.displayed_snapshot_row(k as int);
        let mut out: Vec<String> = Vec::new();
        let mut c: usize = 0;
        while c < row.len()
            invariant
                c <= row.len(),
                out@.len() == c,
                row@.len() == data.column_names@.len(),
                sv == data@,
                target.len() == row@.len(),
                changes == column_values_map(cvs@),
                crate::edits::column_names_distinct(cvs@),
                forall|x: int| 0 <= x < row@.len() ==> #[trigger] target[x] == if changes.contains_key(
                    sv.column_names[x],
                ) {
                    changes[sv.column_names[x]].1
                } else {
                    strings_view(row@)[x]
                },
                forall|x: int| 0 <= x < c ==> #[trigger] out@[x]@ == target[x],
            decreases row.len() - c,
        {
            assert(sv.column_names[c as int] == data.column_names@[c as int]@);
            match position_of_column(cvs, &data.column_names[c]) {
                Some(q) => {
                    proof {
                        lemma_column_values_map_value(cvs@, q as int);
                    }
                    out.push(cvs[q].value.clone());
                },
                None => {
                    out.push(row[c].clone());
                },
            }
            c = c + 1;
        }
        assert(strings_view(out@) =~= target);
        out
    }

    /// The pending edit log.
    pub fn pending_events(&self) -> (r: &Vec<TableDataChangeEvent>)
        ensures
            events_view(r@) == self.events(),
    {
        &self.table_data_change_events
    }

    /// The index translator.
    pub fn current_to_initial_row_indexes(&self) -> (r: &Vec<usize>)
        ensures
            r@ == self.translator(),
    {
        &self.current_to_initial_row_indexes
    }

    /// The snapshot, if a table is open.
    pub fn table_inserted_data(&self) -> (r: &Option<TableInsertedData>)
        ensures
            match r {
                Some(d) => self.snapshot() == Some(d@),
                None => self.snapshot() is None,
            },
    {
        &self.table_inserted_data
    }

    /// The primary-key column names captured with the snapshot.
    pub fn primary_key_column_names(&self) -> (r: &Vec<String>)
        ensures
            strings_view(r@) == self.primary_keys(),
    {
        &self.primary_key_column_names
    }

    /// Whether a commit is under way.
    pub fn committing(&self) -> (r: bool)
        ensures
            r == self.is_committing(),
    {
        self.committing
    }

    /// Appends an event; a modify event must address a row that has none yet and hold
    /// at least one change.
    fn push_event(&mut self, e: TableDataChangeEvent)
        requires
            old(self).wf(),
            event_well_formed(e),
            e@ is ModifyRowColumnValue ==> !has_modify_of(old(self).events(), modify_conditions(e@))
                && pending_values(e@) != Map::<Seq<char>, (DataType, Seq<char>)>::empty(),
            old(self).snapshot() is Some,
            e@ is InsertRow ==> insert_column_names(e@) == old(self).snapshot()->0.column_names
                && insert_data_types(e@) == old(self).snapshot()->0.data_types,
        ensures
            final(self).events() == old(self).events().push(e@),
            final(self).same_table(old(self)),
            final(self).translator() == old(self).translator(),
            final(self).wf_log(),
            !(e@ is DeleteRow) ==> final(self).wf(),
    {
        let ghost before = self.events();
        let ghost before_raw = self.table_data_change_events@;
        self.table_data_change_events.push(e);
        assert(self.events() =~= before.push(e@));
        proof {
            lemma_delete_count_push(before, e@);
            let now = self.events();
            assert forall|i: int| 0 <= i < self.table_data_change_events@.len() implies event_well_formed(
                #[trigger] self.table_data_change_events@[i],
            ) by {
                if i < before_raw.len() {
                    assert(self.table_data_change_events@[i] == before_raw[i]);
                }
            }
            assert forall|a: int, b: int|
                0 <= a < b < now.len() && #[trigger] now[a] is ModifyRowColumnValue
                    && #[trigger] now[b] is ModifyRowColumnValue implies modify_conditions(now[a])
                != modify_conditions(now[b]) by {
                assert(now[a] == before[a]);
                if b == before.len() {
                    if modify_conditions(now[a]) == modify_conditions(now[b]) {
                        assert(is_modify_of(before[a], modify_conditions(e@)));
                    }
                } else {
                    assert(now[b] == before[b]);
                }
            }
            assert forall|i: int|
                0 <= i < now.len() && #[trigger] now[i] is ModifyRowColumnValue implies pending_values(
                now[i],
            ) != Map::<Seq<char>, (DataType, Seq<char>)>::empty() by {
                if i < before.len() {
                    assert(now[i] == before[i]);
                }
            }
        }
    }

    /// Removes the event at `p`, which is no delete event.
    fn remove_event(&mut self, p: usize)
        requires
            p < old(self).events().len(),
            !(old(self).events()[p as int] is DeleteRow),
            old(self).wf(),
        ensures
            final(self).events() == old(self).events().remove(p as int),
            final(self).same_table(old(self)),
            final(self).translator() == old(self).translator(),
            final(self).wf(),
    {
        let ghost before = self.events();
        let ghost before_raw = self.table_data_change_events@;
        self.table_data_change_events.remove(p);
        assert(self.events() =~= before.remove(p as int));
        proof {
            lemma_delete_count_remove(before, p as int);
            assert forall|i: int| 0 <= i < self.table_data_change_events@.len() implies event_well_formed(
                #[trigger] self.table_data_change_events@[i],
            ) by {
                if i < p {
                    assert(self.table_data_change_events@[i] == before_raw[i]);
                } else {
                    assert(self.table_data_change_events@[i] == before_raw[i + 1]);
                }
            }
            let now = self.events();
            assert forall|a: int, b: int|
                0 <= a < b < now.len() && #[trigger] now[a] is ModifyRowColumnValue
                    && #[trigger] now[b] is ModifyRowColumnValue implies modify_conditions(now[a])
                != modify_conditions(now[b]) by {
                let a0 = if a < p {
                    a
                } else {
                    a + 1
                };
                let b0 = if b < p {
                    b
                } else {
                    b + 1
                };
                assert(now[a] == before[a0] && now[b] == before[b0]);
            }
            assert forall|i: int|
                0 <= i < now.len() && #[trigger] now[i] is ModifyRowColumnValue implies pending_values(
                now[i],
            ) != Map::<Seq<char>, (DataType, Seq<char>)>::empty() by {
                let i0 = if i < p {
                    i
                } else {
                    i + 1
                };
                assert(now[i] == before[i0]);
            }
        }
    }

    /// Replaces the event at `p` by one of the same kind; a modify event keeps its row
    /// and holds at least one change.
    fn replace_event(&mut self, p: usize, e: TableDataChangeEvent)
        requires
            p < old(self).events().len(),
            old(self).wf(),
            event_well_formed(e),
            old(self).events()[p as int] is InsertRow ==> e@ is InsertRow,
            old(self).events()[p as int] is ModifyRowColumnValue ==> e@ is ModifyRowColumnValue
                && modify_conditions(e@) == modify_conditions(old(self).events()[p as int])
                && pending_values(e@) != Map::<Seq<char>, (DataType, Seq<char>)>::empty(),
            !(old(self).events()[p as int] is DeleteRow),
            e@ is InsertRow ==> insert_column_names(e@) == insert_column_names(
                old(self).events()[p as int],
            ) && insert_data_types(e@) == insert_data_types(old(self).events()[p as int]),
        ensures
            final(self).events() == old(self).events().update(p as int, e@),
            final(self).same_table(old(self)),
            final(self).translator() == old(self).translator(),
            final(self).wf(),
    {
        let ghost before = self.events();
        let ghost before_raw = self.table_data_change_events@;
        self.table_data_change_events.remove(p);
        self.table_data_change_events.insert(p, e);
        assert(self.table_data_change_events@ =~= before_raw.update(p as int, e));
        assert(self.events() =~= before.update(p as int, e@));
        proof {
            lemma_delete_count_update(before, p as int, e@);
            assert forall|i: int| 0 <= i < self.table_data_change_events@.len() implies event_well_formed(
                #[trigger] self.table_data_change_events@[i],
            ) by {
                if i != p {
                    assert(self.table_data_change_events@[i] == before_raw[i]);
                }
            }
            let now = self.events();
            assert forall|a: int, b: int|
                0 <= a < b < now.len() && #[trigger] now[a] is ModifyRowColumnValue
                    && #[trigger] now[b] is ModifyRowColumnValue implies modify_conditions(now[a])
                != modify_conditions(now[b]) by {
                assert(before[a] is ModifyRowColumnValue && before[b] is ModifyRowColumnValue);
                assert(modify_conditions(now[a]) == modify_conditions(before[a]));
                assert(modify_conditions(now[b]) == modify_conditions(before[b]));
            }
            assert forall|i: int|
                0 <= i < now.len() && #[trigger] now[i] is ModifyRowColumnValue implies pending_values(
                now[i],
            ) != Map::<Seq<char>, (DataType, Seq<char>)>::empty() by {
                if i != p {
                    assert(now[i] == before[i]);
                }
            }
        }
    }
}

/// The insert positions found in a prefix of a log are those of the whole log.
pub proof fn lemma_insert_event_indices_prefix(s: Seq<EventView>, n: int)
    requires
        0 <= n <= s.len(),
    ensures
        insert_event_indices(s.subrange(0, n)).len() <= insert_event_indices(s).len(),
        forall|j: int|
            0 <= j < insert_event_indices(s.subrange(0, n)).len() ==> #[trigger] insert_event_indices(
                s,
            )[j] == insert_event_indices(s.subrange(0, n))[j],
    decreases s.len() - n,
{
    if n < s.len() {
        lemma_insert_event_indices_prefix(s, n + 1);
        assert(s.subrange(0, n + 1).drop_last() =~= s.subrange(0, n));
    } else {
        assert(s.subrange(0, n) =~= s);
    }
}

/// Setting a column of a row back to the row's snapshot value drops that column's pending
/// change; once no other column of the row is pending, the row has no modify event left,
/// and a row without pending changes gets none.
pub proof fn lemma_revert_to_original(t: TableData, row_index: int, column: Seq<char>)
    requires
        t.wf(),
        t.snapshot() is Some,
        0 <= row_index < t.translator().len(),
        t.snapshot()->0.column_names.index_of_first(column) is Some,
    ensures
        ({
            let s = t.snapshot()->0;
            let initial = t.translator()[row_index] as int;
            let cond = row_conditions(s, t.primary_keys(), initial);
            let k = s.column_names.index_of_first(column)->0;
            let result = t.log_after_modify(row_index, column, s.rows[initial][k]);
            &&& forall|m: int|
                0 <= m < result.len() && #[trigger] is_modify_of(result[m], cond)
                    ==> !pending_values(result[m]).contains_key(column)
            &&& forall|m: int|
                0 <= m < t.events().len() && #[trigger] is_modify_of(t.events()[m], cond)
                    && pending_values(t.events()[m]).dom().subset_of(set![column])
                    ==> !has_modify_of(result, cond)
            &&& !has_modify_of(t.events(), cond) ==> result == t.events()
        }),
{
    let s = t.snapshot()->0;
    let ev = t.events();
    let initial = t.translator()[row_index] as int;
    let cond = row_conditions(s, t.primary_keys(), initial);
    let k = s.column_names.index_of_first(column)->0;
    let original = s.rows[initial][k];
    let result = t.log_after_modify(row_index, column, original);
    lemma_row_index_not_insert(t, row_index);
    if has_modify_of(ev, cond) {
        let m0 = choose|m: int| 0 <= m < ev.len() && #[trigger] is_modify_of(ev[m], cond);
        let new_map = pending_values(ev[m0]).remove(column);
        assert(result == merged_at(ev, m0, column, s.data_types[k], original, original));
        assert forall|m: int| 0 <= m < ev.len() && #[trigger] is_modify_of(ev[m], cond) implies m == m0 by {
            lemma_modify_unique(ev, m, m0, cond);
        }
        if new_map == Map::<Seq<char>, (DataType, Seq<char>)>::empty() {
            assert(result == ev.remove(m0));
            assert forall|m: int| 0 <= m < result.len() implies !#[trigger] is_modify_of(result[m], cond) by {
                if m < m0 {
                    assert(result[m] == ev[m]);
                } else {
                    assert(result[m] == ev[m + 1]);
                }
            }
        } else {
            assert(result == ev.update(m0, EventView::ModifyRowColumnValue { conditions: cond, column_values: new_map }));
            assert forall|m: int|
                0 <= m < result.len() && #[trigger] is_modify_of(result[m], cond) implies !pending_values(
                result[m],
            ).contains_key(column) by {
                if m != m0 {
                    assert(result[m] == ev[m]);
                }
            }
            assert forall|m: int|
                0 <= m < ev.len() && #[trigger] is_modify_of(ev[m], cond) && pending_values(
                    ev[m],
                ).dom().subset_of(set![column]) implies !has_modify_of(result, cond) by {
                assert(m == m0);
                assert(new_map =~= Map::<Seq<char>, (DataType, Seq<char>)>::empty());
            }
        }
    }
}

/// What the session's invariant says of its log and translator: at most one modify event
/// per row, none of them empty, every pending insert laid out along the snapshot's columns
/// and types, and one translator entry, an initial index, per snapshot row not deleted.
pub proof fn lemma_wf_facts(t: TableData)
    requires
        t.wf(),
    ensures
        modify_events_distinct(t.events()),
        modify_events_non_empty(t.events()),
        t.snapshot() is None ==> t.events().len() == 0 && t.translator().len() == 0,
        t.snapshot() matches Some(s) ==> {
            &&& snapshot_well_formed(s)
            &&& inserts_carry_columns(t.events(), s.column_names, s.data_types)
            &&& delete_count(t.events()) <= s.rows.len()
            &&& t.translator().len() == s.rows.len() - delete_count(t.events())
            &&& forall|k: int| 0 <= k < t.translator().len() ==> #[trigger] t.translator()[k] < s.rows.len()
        },
{
}

/// Two modify events of one row are one event.
proof fn lemma_modify_unique(ev: Seq<EventView>, a: int, b: int, cond: Seq<ConditionView>)
    requires
        modify_events_distinct(ev),
        0 <= a < ev.len(),
        0 <= b < ev.len(),
        is_modify_of(ev[a], cond),
        is_modify_of(ev[b], cond),
    ensures
        a == b,
{
    assert(ev[a] is ModifyRowColumnValue && ev[b] is ModifyRowColumnValue);
    if a < b {
        assert(modify_conditions(ev[a]) != modify_conditions(ev[b]));
    } else if b < a {
        assert(modify_conditions(ev[b]) != modify_conditions(ev[a]));
    }
}

/// A current index below the number of shown snapshot rows addresses no pending insert.
proof fn lemma_row_index_not_insert(t: TableData, row_index: int)
    requires
        t.wf(),
        t.snapshot() is Some,
        0 <= row_index < t.translator().len(),
    ensures
        insert_event_at(t.row_count(), t.events(), row_index) is None,
{
}

/// Changing a column of a row without pending changes and then setting it back to its
/// snapshot value leaves the log as it was before the change.
pub proof fn lemma_change_then_revert(
    before: TableData,
    after_change: TableData,
    row_index: int,
    column: Seq<char>,
    value: Seq<char>,
)
    requires
        before.wf(),
        before.snapshot() is Some,
        0 <= row_index < before.translator().len(),
        before.snapshot()->0.column_names.index_of_first(column) is Some,
        !has_modify_of(
            before.events(),
            row_conditions(
                before.snapshot()->0,
                before.primary_keys(),
                before.translator()[row_index] as int,
            ),
        ),
        value != before.snapshot()->0.rows[before.translator()[row_index] as int][before.snapshot()->0.column_names.index_of_first(
            column,
        )->0],
        after_change.wf(),
        after_change.same_table(&before),
        after_change.translator() == before.translator(),
        after_change.events() == before.log_after_modify(row_index, column, value),
    ensures
        after_change.log_after_modify(
            row_index,
            column,
            before.snapshot()->0.rows[before.translator()[row_index] as int][before.snapshot()->0.column_names.index_of_first(
                column,
            )->0],
        ) == before.events(),
{
    let s = before.snapshot()->0;
    let ev = before.events();
    let initial = before.translator()[row_index] as int;
    let cond = row_conditions(s, before.primary_keys(), initial);
    let k = s.column_names.index_of_first(column)->0;
    let original = s.rows[initial][k];
    lemma_row_index_not_insert(before, row_index);
    lemma_row_index_not_insert(after_change, row_index);
    let ev1 = after_change.events();
    let n = ev.len() as int;
    assert(ev1 == ev.push(
        EventView::ModifyRowColumnValue {
            conditions: cond,
            column_values: Map::empty().insert(column, (s.data_types[k], value)),
        },
    ));
    assert(is_modify_of(ev1[n], cond));
    let m0 = choose|m: int| 0 <= m < ev1.len() && #[trigger] is_modify_of(ev1[m], cond);
    if m0 != n {
        assert(ev1[m0] == ev[m0]);
        assert(!has_modify_of(ev, cond));
    }
    assert(pending_values(ev1[n]).remove(column) =~= Map::<Seq<char>, (DataType, Seq<char>)>::empty());
    assert(ev1.remove(n) =~= ev);
}

/// A commit round trip: from an open table with no commit under way, `begin_commit`
/// starts a commit, and `commit_succeeded` with rows fetched afterwards that have one
/// value per catalog column ends it. After it the log is empty, the snapshot holds
/// exactly the fetched rows of the same table, and the translator is the identity over
/// them.
pub proof fn lemma_commit_round_trip(
    before: TableData,
    during: TableData,
    after: TableData,
    started: bool,
    committed: bool,
    primary_keys: Seq<Seq<char>>,
    rows: Seq<Seq<Seq<char>>>,
)
    requires
        before.wf(),
        before.snapshot() is Some,
        !before.is_committing(),
        table_installable(before.catalog(), before.snapshot()->0.table_name, rows),
        during.wf(),
        during.events() == before.events(),
        during.translator() == before.translator(),
        during.snapshot() == before.snapshot(),
        during.primary_keys() == before.primary_keys(),
        during.catalog() == before.catalog(),
        started == !(before.is_committing() || before.snapshot() is None),
        started ==> during.is_committing(),
        after.wf(),
        !after.is_committing(),
        after.catalog() == during.catalog(),
        committed == (during.is_committing() && during.snapshot() is Some && table_installable(
            during.catalog(),
            during.snapshot()->0.table_name,
            rows,
        )),
        committed ==> after.events().len() == 0 && after.snapshot() == Some(
            installed_snapshot(during.catalog(), during.snapshot()->0.table_name, rows),
        ) && after.primary_keys() == primary_keys && after.translator() == identity_translator(
            rows.len(),
        ),
    ensures
        started,
        committed,
        after.events().len() == 0,
        after.snapshot()->0.rows == rows,
        after.snapshot()->0.table_name == before.snapshot()->0.table_name,
        after.translator() == identity_translator(rows.len()),
{
}

/// Inserting a row and then deleting it, before any commit, leaves the log and the
/// translator exactly as they were before the insert.
pub proof fn lemma_insert_then_delete(before: TableData, after_insert: TableData, values: Seq<Seq<char>>)
    requires
        before.wf(),
        before.snapshot() is Some,
        after_insert.wf(),
        after_insert.same_table(&before),
        after_insert.translator() == before.translator(),
        after_insert.events() == before.events().push(
            EventView::InsertRow {
                column_names: before.snapshot()->0.column_names,
                data_types: before.snapshot()->0.data_types,
                values,
            },
        ),
    ensures
        after_insert.log_after_delete(before.displayed_row_count()) == before.events(),
        after_insert.translator_after_delete(before.displayed_row_count()) == before.translator(),
{
    let ev = before.events();
    let e = after_insert.events().last();
    lemma_delete_count_push(ev, e);
    assert(after_insert.events().drop_last() =~= ev);
    assert(insert_event_indices(after_insert.events()) == insert_event_indices(ev).push(ev.len() as int));
    assert(after_insert.events().remove(ev.len() as int) =~= ev);
}

/// Deleting the row shown at `i` leaves every later row `j` shown at `j - 1`, with the
/// same initial index.
pub proof fn lemma_delete_shifts_later_rows(t: TableData, i: int, j: int)
    requires
        t.wf(),
        t.snapshot() is Some,
        0 <= i < j < t.translator().len(),
    ensures
        t.translator_after_delete(i)[j - 1] == t.translator()[j],
        t.translator_after_delete(i).len() == t.translator().len() - 1,
{
    lemma_row_index_not_insert(t, i);
}

/// A change of a primary-key column is keyed by the row's snapshot values: the condition
/// holds the column's original value, and the row's modify event under that condition
/// holds the new one.
pub proof fn lemma_primary_key_edit_keeps_condition(
    t: TableData,
    row_index: int,
    column: Seq<char>,
    value: Seq<char>,
)
    requires
        t.wf(),
        t.snapshot() is Some,
        0 <= row_index < t.translator().len(),
        t.snapshot()->0.column_names.index_of_first(column) is Some,
        t.primary_keys().contains(column),
        value != t.snapshot()->0.rows[t.translator()[row_index] as int][t.snapshot()->0.column_names.index_of_first(
            column,
        )->0],
    ensures
        ({
            let s = t.snapshot()->0;
            let initial = t.translator()[row_index] as int;
            let cond = row_conditions(s, t.primary_keys(), initial);
            let k = s.column_names.index_of_first(column)->0;
            let result = t.log_after_modify(row_index, column, value);
            &&& cond.contains(
                ConditionView { column_name: column, data_type: s.data_types[k], value: s.rows[initial][k] },
            )
            &&& has_modify_of(result, cond)
            &&& forall|m: int|
                0 <= m < result.len() && #[trigger] is_modify_of(result[m], cond)
                    ==> pending_values(result[m]).contains_key(column) && pending_values(
                    result[m],
                )[column] == (s.data_types[k], value)
        }),
{
    let s = t.snapshot()->0;
    let ev = t.events();
    let initial = t.translator()[row_index] as int;
    let cond = row_conditions(s, t.primary_keys(), initial);
    s.column_names.index_of_first_ensures(column);
    let k = s.column_names.index_of_first(column)->0;
    let original = s.rows[initial][k];
    let result = t.log_after_modify(row_index, column, value);
    lemma_row_index_not_insert(t, row_index);
    lemma_conditions_hold_key(s.column_names, s.data_types, s.rows[initial], t.primary_keys(), s.column_names.len() as int, k);
    if has_modify_of(ev, cond) {
        let m0 = choose|m: int| 0 <= m < ev.len() && #[trigger] is_modify_of(ev[m], cond);
        assert(ev[m0] is ModifyRowColumnValue);
        let new_map = pending_values(ev[m0]).insert(column, (s.data_types[k], value));
        assert(new_map.contains_key(column));
        assert(result == ev.update(m0, EventView::ModifyRowColumnValue { conditions: cond, column_values: new_map }));
        assert(is_modify_of(result[m0], cond));
        assert forall|m: int| 0 <= m < result.len() && #[trigger] is_modify_of(result[m], cond) implies pending_values(
            result[m],
        ).contains_key(column) && pending_values(result[m])[column] == (s.data_types[k], value) by {
            if m != m0 {
                assert(result[m] == ev[m]);
                lemma_modify_unique(ev, m, m0, cond);
            }
        }
    } else {
        let n = ev.len() as int;
        assert(is_modify_of(result[n], cond));
        assert forall|m: int| 0 <= m < result.len() && #[trigger] is_modify_of(result[m], cond) implies pending_values(
            result[m],
        ).contains_key(column) && pending_values(result[m])[column] == (s.data_types[k], value) by {
            if m != n {
                assert(result[m] == ev[m]);
                assert(!has_modify_of(ev, cond));
            }
        }
    }
}

/// The condition drawn from a row holds the row's value of each primary-key column.
proof fn lemma_conditions_hold_key(
    column_names: Seq<Seq<char>>,
    data_types: Seq<DataType>,
    row: Seq<Seq<char>>,
    primary_keys: Seq<Seq<char>>,
    n: int,
    k: int,
)
    requires
        0 <= k < n <= column_names.len(),
        primary_keys.contains(column_names[k]),
    ensures
        primary_key_conditions_upto(column_names, data_types, row, primary_keys, n).contains(
            ConditionView { column_name: column_names[k], data_type: data_types[k], value: row[k] },
        ),
    decreases n,
{
    let c = primary_key_conditions_upto(column_names, data_types, row, primary_keys, n);
    let x = ConditionView { column_name: column_names[k], data_type: data_types[k], value: row[k] };
    if k == n - 1 {
        assert(c.last() == x);
        assert(c[c.len() - 1] == x);
    } else {
        lemma_conditions_hold_key(column_names, data_types, row, primary_keys, n - 1, k);
        let p = primary_key_conditions_upto(column_names, data_types, row, primary_keys, n - 1);
        let j = choose|j: int| 0 <= j < p.len() && p[j] == x;
        assert(c[j] == x);
    }
}

/// Edits at a current index past the shown rows change neither the log nor the translator.
pub proof fn lemma_out_of_range_edits(t: TableData, row_index: int, column: Seq<char>, value: Seq<char>)
    requires
        t.wf(),
        row_index >= t.displayed_row_count(),
    ensures
        t.log_after_modify(row_index, column, value) == t.events(),
        t.log_after_delete(row_index) == t.events(),
        t.translator_after_delete(row_index) == t.translator(),
{
}

} // verus!
