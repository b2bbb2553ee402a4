use vstd::prelude::*;

use crate::edits::{ConditionView, DataType, EventView};

verus! {

/// Number of delete events in a log.
pub open spec fn delete_count(s: Seq<EventView>) -> nat
    decreases s.len(),
{
    if s.len() == 0 {
        0
    } else {
        delete_count(s.drop_last()) + if s.last() is DeleteRow {
            1nat
        } else {
            0nat
        }
    }
}

/// Positions of the insert events of a log, in log order.
pub open spec fn insert_event_indices(s: Seq<EventView>) -> Seq<int>
    decreases s.len(),
{
    if s.len() == 0 {
        Seq::empty()
    } else {
        let p = insert_event_indices(s.drop_last());
        if s.last() is InsertRow {
            p.push(s.len() - 1)
        } else {
            p
        }
    }
}

/// The log position of the pending insert shown at current index `i`, if `i` addresses
/// one: the rows of a snapshot of `row_count` rows that are still shown come first, the
/// pending inserts follow in log order.
pub open spec fn insert_event_at(row_count: nat, s: Seq<EventView>, i: int) -> Option<int> {
    let k = i - (row_count - delete_count(s));
    if 0 <= k < insert_event_indices(s).len() {
        Some(insert_event_indices(s)[k])
    } else {
        None
    }
}

/// The conditions drawn from the first `n` columns of `row`: one `(name, type, value)`
/// triple, in column order, for each column whose name is a primary-key column.
pub open spec fn primary_key_conditions_upto(
    column_names: Seq<Seq<char>>,
    data_types: Seq<DataType>,
    row: Seq<Seq<char>>,
    primary_keys: Seq<Seq<char>>,
    n: int,
) -> Seq<ConditionView>
    decreases n,
{
    if n <= 0 {
        Seq::empty()
    } else {
        let p = primary_key_conditions_upto(column_names, data_types, row, primary_keys, n - 1);
        if primary_keys.contains(column_names[n - 1]) {
            p.push(
                ConditionView {
                    column_name: column_names[n - 1],
                    data_type: data_types[n - 1],
                    value: row[n - 1],
                },
            )
        } else {
            p
        }
    }
}

/// The primary-key condition of a row, drawn from its values in the snapshot.
pub open spec fn primary_key_conditions(
    column_names: Seq<Seq<char>>,
    data_types: Seq<DataType>,
    row: Seq<Seq<char>>,
    primary_keys: Seq<Seq<char>>,
) -> Seq<ConditionView> {
    primary_key_conditions_upto(column_names, data_types, row, primary_keys, column_names.len() as int)
}

/// The values of a new row after setting `column` to `value`.
pub open spec fn overwrite_column(
    column_names: Seq<Seq<char>>,
    values: Seq<Seq<char>>,
    column: Seq<char>,
    value: Seq<char>,
) -> Seq<Seq<char>> {
    Seq::new(
        values.len(),
        |k: int|
            if k < column_names.len() && column_names[k] == column {
                value
            } else {
                values[k]
            },
    )
}

/// An insert event after setting `column` to `value` in its row, the row's values being
/// laid out along `column_names`.
pub open spec fn overwrite_insert(
    e: EventView,
    column_names: Seq<Seq<char>>,
    column: Seq<char>,
    value: Seq<char>,
) -> EventView {
    match e {
        EventView::InsertRow { column_names: own_names, data_types, values } => EventView::InsertRow {
            column_names: own_names,
            data_types,
            values: overwrite_column(column_names, values, column, value),
        },
        _ => e,
    }
}

pub open spec fn insert_column_names(e: EventView) -> Seq<Seq<char>> {
    match e {
        EventView::InsertRow { column_names, .. } => column_names,
        _ => Seq::empty(),
    }
}

pub open spec fn insert_data_types(e: EventView) -> Seq<DataType> {
    match e {
        EventView::InsertRow { data_types, .. } => data_types,
        _ => Seq::empty(),
    }
}

/// Every pending insert is laid out along the given columns and types.
pub open spec fn inserts_carry_columns(
    s: Seq<EventView>,
    column_names: Seq<Seq<char>>,
    data_types: Seq<DataType>,
) -> bool {
    forall|i: int|
        0 <= i < s.len() && #[trigger] s[i] is InsertRow ==> insert_column_names(s[i])
            == column_names && insert_data_types(s[i]) == data_types
}

pub open spec fn is_modify_of(e: EventView, c: Seq<ConditionView>) -> bool {
    match e {
        EventView::ModifyRowColumnValue { conditions, .. } => conditions == c,
        _ => false,
    }
}

pub open spec fn pending_values(e: EventView) -> Map<Seq<char>, (DataType, Seq<char>)> {
    match e {
        EventView::ModifyRowColumnValue { column_values, .. } => column_values,
        _ => Map::empty(),
    }
}

pub open spec fn modify_conditions(e: EventView) -> Seq<ConditionView> {
    match e {
        EventView::ModifyRowColumnValue { conditions, .. } => conditions,
        _ => Seq::empty(),
    }
}

/// At most one modify event per row identity.
pub open spec fn modify_events_distinct(s: Seq<EventView>) -> bool {
    forall|a: int, b: int|
        0 <= a < b < s.len() && #[trigger] s[a] is ModifyRowColumnValue
            && #[trigger] s[b] is ModifyRowColumnValue ==> modify_conditions(s[a])
            != modify_conditions(s[b])
}

/// Every modify event holds at least one pending change.
pub open spec fn modify_events_non_empty(s: Seq<EventView>) -> bool {
    forall|i: int|
        0 <= i < s.len() && #[trigger] s[i] is ModifyRowColumnValue ==> pending_values(s[i])
            != Map::<Seq<char>, (DataType, Seq<char>)>::empty()
}

pub open spec fn has_modify_of(s: Seq<EventView>, c: Seq<ConditionView>) -> bool {
    exists|m: int| 0 <= m < s.len() && #[trigger] is_modify_of(s[m], c)
}

/// The log after merging a change of `column` to `value` into the modify event at `m`,
/// whose row holds `original` in that column: a value equal to the original cancels the
/// column's pending change, and an event left without changes leaves the log.
pub open spec fn merged_at(
    s: Seq<EventView>,
    m: int,
    column: Seq<char>,
    data_type: DataType,
    value: Seq<char>,
    original: Seq<char>,
) -> Seq<EventView> {
    let old_map = pending_values(s[m]);
    let new_map = if value == original {
        old_map.remove(column)
    } else {
        old_map.insert(column, (data_type, value))
    };
    if new_map == Map::<Seq<char>, (DataType, Seq<char>)>::empty() {
        s.remove(m)
    } else {
        s.update(
            m,
            EventView::ModifyRowColumnValue {
                conditions: modify_conditions(s[m]),
                column_values: new_map,
            },
        )
    }
}

/// The log after setting `column` to `value` on the stored row addressed by `c`, whose
/// snapshot value in that column is `original`: the row's modify event takes the change
/// (see `merged_at`); without one, a value equal to the original changes nothing and
/// any other value is appended as a new modify event holding only this change.
pub open spec fn merge_modify(
    s: Seq<EventView>,
    c: Seq<ConditionView>,
    column: Seq<char>,
    data_type: DataType,
    value: Seq<char>,
    original: Seq<char>,
) -> Seq<EventView> {
    if has_modify_of(s, c) {
        let m = choose|m: int| 0 <= m < s.len() && #[trigger] is_modify_of(s[m], c);
        merged_at(s, m, column, data_type, value, original)
    } else if value == original {
        s
    } else {
        s.push(
            EventView::ModifyRowColumnValue {
                conditions: c,
                column_values: Map::empty().insert(column, (data_type, value)),
            },
        )
    }
}

pub proof fn lemma_insert_event_indices(s: Seq<EventView>)
    ensures
        forall|j: int|
            0 <= j < insert_event_indices(s).len() ==> 0 <= #[trigger] insert_event_indices(s)[j]
                < s.len() && s[insert_event_indices(s)[j]] is InsertRow,
    decreases s.len(),
{
    if s.len() > 0 {
        lemma_insert_event_indices(s.drop_last());
    }
}

pub proof fn lemma_delete_count_push(s: Seq<EventView>, e: EventView)
    ensures
        delete_count(s.push(e)) == delete_count(s) + if e is DeleteRow {
            1nat
        } else {
            0nat
        },
{
    assert(s.push(e).drop_last() =~= s);
}

pub proof fn lemma_delete_count_update(s: Seq<EventView>, p: int, e: EventView)
    requires
        0 <= p < s.len(),
        !(s[p] is DeleteRow),
        !(e is DeleteRow),
    ensures
        delete_count(s.update(p, e)) == delete_count(s),
    decreases s.len(),
{
    if p == s.len() - 1 {
        assert(s.update(p, e).drop_last() =~= s.drop_last());
    } else {
        assert(s.update(p, e).drop_last() =~= s.drop_last().update(p, e));
        lemma_delete_count_update(s.drop_last(), p, e);
    }
}

pub proof fn lemma_delete_count_remove(s: Seq<EventView>, p: int)
    requires
        0 <= p < s.len(),
        !(s[p] is DeleteRow),
    ensures
        delete_count(s.remove(p)) == delete_count(s),
    decreases s.len(),
{
    if p == s.len() - 1 {
        assert(s.remove(p) =~= s.drop_last());
    } else {
        assert(s.remove(p).drop_last() =~= s.drop_last().remove(p));
        lemma_delete_count_remove(s.drop_last(), p);
        assert(s.remove(p).last() == s.last());
    }
}

} // verus!
