use vstd::prelude::*;

verus! {

/// Type tag of a table column.
#[derive(Debug, Clone, Copy, PartialEq, Eq, Structural)]
pub enum DataType {
    TEXT,
    INTEGER,
    TIMESTAMP,
}

/// The type tag of a column whose catalog type is named `name`: the integer types are
/// `INTEGER`, the timestamp types `TIMESTAMP`, and every other column is read as `TEXT`.
pub open spec fn data_type_named(name: Seq<char>) -> DataType {
    if name == "integer"@ || name == "bigint"@ || name == "smallint"@ {
        DataType::INTEGER
    } else if name == "timestamp without time zone"@ || name == "timestamp with time zone"@ {
        DataType::TIMESTAMP
    } else {
        DataType::TEXT
    }
}

impl DataType {
    /// The type tag of a catalog type name.
    pub fn from_catalog_name(name: &String) -> (r: DataType)
        ensures
            r == data_type_named(name@),
    {
        if *name == String::from_str("integer") || *name == String::from_str("bigint") || *name
            == String::from_str("smallint") {
            DataType::INTEGER
        } else if *name == String::from_str("timestamp without time zone") || *name
            == String::from_str("timestamp with time zone") {
            DataType::TIMESTAMP
        } else {
            DataType::TEXT
        }
    }

    /// The storage type that a value of this tag is written as.
    pub fn sql_name(&self) -> (r: &'static str)
        ensures
            r@ == match *self {
                DataType::TEXT => "text"@,
                DataType::INTEGER => "integer"@,
                DataType::TIMESTAMP => "timestamp"@,
            },
    {
        match self {
            DataType::TEXT => "text",
            DataType::INTEGER => "integer",
            DataType::TIMESTAMP => "timestamp",
        }
    }
}

/// One `(column, type, value)` entry of a primary-key condition.
#[derive(Debug, Clone)]
pub struct Condition {
    pub column_name: String,
    pub data_type: DataType,
    pub value: String,
}

/// One pending cell change of a modified row: the column, its type and the new value.
#[derive(Debug, Clone)]
pub struct ColumnValue {
    pub column_name: String,
    pub data_type: DataType,
    pub value: String,
}

/// A complete new row that is not in storage yet.
#[derive(Debug, Clone)]
pub struct RowInsertData {
    pub column_names: Vec<String>,
    pub data_types: Vec<DataType>,
    pub values: Vec<String>,
}

/// Pending cell changes of one stored row, addressed by that row's primary-key condition.
/// The column names of `column_values` are pairwise distinct.
#[derive(Debug, Clone)]
pub struct RowColumnValue {
    pub conditions: Vec<Condition>,
    pub column_values: Vec<ColumnValue>,
}

/// One staged edit of the pending edit log.
#[derive(Debug, Clone)]
pub enum TableDataChangeEvent {
    InsertRow(RowInsertData),
    ModifyRowColumnValue(RowColumnValue),
    DeleteRow(Vec<Condition>),
}

/// Mathematical value of a `Condition`.
pub struct ConditionView {
    pub column_name: Seq<char>,
    pub data_type: DataType,
    pub value: Seq<char>,
}

/// Mathematical value of an edit event; the pending changes of a modify event are a map
/// from column name to type and new value.
pub enum EventView {
    InsertRow { column_names: Seq<Seq<char>>, data_types: Seq<DataType>, values: Seq<Seq<char>> },
    ModifyRowColumnValue {
        conditions: Seq<ConditionView>,
        column_values: Map<Seq<char>, (DataType, Seq<char>)>,
    },
    DeleteRow { conditions: Seq<ConditionView> },
}

impl View for Condition {
    type V = ConditionView;

    open spec fn view(&self) -> ConditionView {
        ConditionView { column_name: self.column_name@, data_type: self.data_type, value: self.value@ }
    }
}

pub open spec fn strings_view(s: Seq<String>) -> Seq<Seq<char>> {
    s.map_values(|x: String| x@)
}

pub open spec fn conditions_view(s: Seq<Condition>) -> Seq<ConditionView> {
    s.map_values(|c: Condition| c@)
}

/// The pending changes held by a sequence of column values, later entries winning.
pub open spec fn column_values_map(s: Seq<ColumnValue>) -> Map<Seq<char>, (DataType, Seq<char>)>
    decreases s.len(),
{
    if s.len() == 0 {
        Map::empty()
    } else {
        column_values_map(s.drop_last()).insert(
            s.last().column_name@,
            (s.last().data_type, s.last().value@),
        )
    }
}

pub open spec fn column_names_distinct(s: Seq<ColumnValue>) -> bool {
    forall|i: int, j: int|
        0 <= i < j < s.len() ==> #[trigger] s[i].column_name@ != #[trigger] s[j].column_name@
}

impl View for TableDataChangeEvent {
    type V = EventView;

    open spec fn view(&self) -> EventView {
        match self {
            TableDataChangeEvent::InsertRow(d) => EventView::InsertRow {
                column_names: strings_view(d.column_names@),
                data_types: d.data_types@,
                values: strings_view(d.values@),
            },
            TableDataChangeEvent::ModifyRowColumnValue(m) => EventView::ModifyRowColumnValue {
                conditions: conditions_view(m.conditions@),
                column_values: column_values_map(m.column_values@),
            },
            TableDataChangeEvent::DeleteRow(c) => EventView::DeleteRow {
                conditions: conditions_view(c@),
            },
        }
    }
}

pub open spec fn events_view(s: Seq<TableDataChangeEvent>) -> Seq<EventView> {
    s.map_values(|e: TableDataChangeEvent| e@)
}

/// A stored modify event holds distinct column names.
pub open spec fn event_well_formed(e: TableDataChangeEvent) -> bool {
    match e {
        TableDataChangeEvent::ModifyRowColumnValue(m) => column_names_distinct(m.column_values@),
        _ => true,
    }
}

/// The map of a sequence holds exactly its column names.
pub proof fn lemma_column_values_map_domain(s: Seq<ColumnValue>, k: Seq<char>)
    ensures
        column_values_map(s).contains_key(k) <==> exists|i: int|
            0 <= i < s.len() && #[trigger] s[i].column_name@ == k,
    decreases s.len(),
{
    if s.len() > 0 {
        lemma_column_values_map_domain(s.drop_last(), k);
        if column_values_map(s.drop_last()).contains_key(k) {
            let i = choose|i: int| 0 <= i < s.drop_last().len() && #[trigger] s.drop_last()[i].column_name@ == k;
            assert(s[i].column_name@ == k);
        }
        if exists|i: int| 0 <= i < s.len() && #[trigger] s[i].column_name@ == k {
            let i = choose|i: int| 0 <= i < s.len() && #[trigger] s[i].column_name@ == k;
            if i < s.len() - 1 {
                assert(s.drop_last()[i].column_name@ == k);
            }
        }
    }
}

/// With distinct names, each entry's value is what the map holds for its column.
pub proof fn lemma_column_values_map_value(s: Seq<ColumnValue>, i: int)
    requires
        column_names_distinct(s),
        0 <= i < s.len(),
    ensures
        column_values_map(s).contains_key(s[i].column_name@),
        column_values_map(s)[s[i].column_name@] == (s[i].data_type, s[i].value@),
    decreases s.len(),
{
    if i < s.len() - 1 {
        lemma_column_values_map_value(s.drop_last(), i);
        assert(s[i].column_name@ != s[s.len() - 1].column_name@);
    }
}

/// Overwriting an entry in place overwrites the map at its column.
pub proof fn lemma_column_values_map_update(s: Seq<ColumnValue>, i: int, e: ColumnValue)
    requires
        column_names_distinct(s),
        0 <= i < s.len(),
        e.column_name@ == s[i].column_name@,
    ensures
        column_values_map(s.update(i, e)) == column_values_map(s).insert(
            e.column_name@,
            (e.data_type, e.value@),
        ),
        column_names_distinct(s.update(i, e)),
    decreases s.len(),
{
    let t = s.update(i, e);
    if i == s.len() - 1 {
        assert(t.drop_last() =~= s.drop_last());
        assert(column_values_map(t) =~= column_values_map(s).insert(
            e.column_name@,
            (e.data_type, e.value@),
        ));
    } else {
        assert(t.drop_last() =~= s.drop_last().update(i, e));
        lemma_column_values_map_update(s.drop_last(), i, e);
        assert(s[i].column_name@ != s[s.len() - 1].column_name@);
        assert(column_values_map(t) =~= column_values_map(s).insert(
            e.column_name@,
            (e.data_type, e.value@),
        ));
    }
    assert forall|a: int, b: int| 0 <= a < b < t.len() implies #[trigger] t[a].column_name@
        != #[trigger] t[b].column_name@ by {
        assert(s[a].column_name@ != s[b].column_name@);
    }
}

/// Removing an entry removes its column from the map.
pub proof fn lemma_column_values_map_remove(s: Seq<ColumnValue>, i: int)
    requires
        column_names_distinct(s),
        0 <= i < s.len(),
    ensures
        column_values_map(s.remove(i)) == column_values_map(s).remove(s[i].column_name@),
        column_names_distinct(s.remove(i)),
    decreases s.len(),
{
    let t = s.remove(i);
    let k = s[i].column_name@;
    if i == s.len() - 1 {
        assert(t =~= s.drop_last());
        lemma_column_values_map_domain(s.drop_last(), k);
        if column_values_map(s.drop_last()).contains_key(k) {
            let j = choose|j: int| 0 <= j < s.drop_last().len() && #[trigger] s.drop_last()[j].column_name@ == k;
            assert(s[j].column_name@ == k);
        }
        assert(column_values_map(t) =~= column_values_map(s).remove(k));
    } else {
        assert(t.drop_last() =~= s.drop_last().remove(i));
        lemma_column_values_map_remove(s.drop_last(), i);
        assert(s[i].column_name@ != s[s.len() - 1].column_name@);
        assert(t.last() == s.last());
        assert(column_values_map(t) =~= column_values_map(s).remove(k));
    }
    assert forall|a: int, b: int| 0 <= a < b < t.len() implies #[trigger] t[a].column_name@
        != #[trigger] t[b].column_name@ by {
        if a < i {
            if b < i {
                assert(s[a].column_name@ != s[b].column_name@);
            } else {
                assert(s[a].column_name@ != s[b + 1].column_name@);
            }
        } else {
            assert(s[a + 1].column_name@ != s[b + 1].column_name@);
        }
    }
}

/// Appending a column that is not present yet adds it to the map.
pub proof fn lemma_column_values_map_push(s: Seq<ColumnValue>, e: ColumnValue)
    requires
        column_names_distinct(s),
        !column_values_map(s).contains_key(e.column_name@),
    ensures
        column_values_map(s.push(e)) == column_values_map(s).insert(
            e.column_name@,
            (e.data_type, e.value@),
        ),
        column_names_distinct(s.push(e)),
{
    let t = s.push(e);
    assert(t.drop_last() =~= s);
    assert forall|a: int, b: int| 0 <= a < b < t.len() implies #[trigger] t[a].column_name@
        != #[trigger] t[b].column_name@ by {
        if b == s.len() {
            lemma_column_values_map_domain(s, e.column_name@);
            assert(s[a].column_name@ == t[a].column_name@);
        }
    }
}

pub open spec fn same_entry(a: ColumnValue, b: ColumnValue) -> bool {
    a.column_name@ == b.column_name@ && a.data_type == b.data_type && a.value@ == b.value@
}

/// Maps of sequences whose entries agree column by column are equal.
pub proof fn lemma_column_values_map_congruent(s: Seq<ColumnValue>, t: Seq<ColumnValue>)
    requires
        s.len() == t.len(),
        forall|i: int| 0 <= i < s.len() ==> same_entry(#[trigger] s[i], t[i]),
    ensures
        column_values_map(s) == column_values_map(t),
        column_names_distinct(s) ==> column_names_distinct(t),
    decreases s.len(),
{
    if s.len() > 0 {
        assert forall|i: int| 0 <= i < s.len() - 1 implies same_entry(
            #[trigger] s.drop_last()[i],
            t.drop_last()[i],
        ) by {
            assert(same_entry(s[i], t[i]));
        }
        lemma_column_values_map_congruent(s.drop_last(), t.drop_last());
        assert(same_entry(s[s.len() - 1], t[s.len() - 1]));
    }
    if column_names_distinct(s) {
        assert forall|a: int, b: int| 0 <= a < b < t.len() implies #[trigger] t[a].column_name@
            != #[trigger] t[b].column_name@ by {
            assert(same_entry(s[a], t[a]) && same_entry(s[b], t[b]));
            assert(s[a].column_name@ != s[b].column_name@);
        }
    }
}

/// Copies a list of strings.
pub fn clone_strings(v: &Vec<String>) -> (r: Vec<String>)
    ensures
        strings_view(r@) == strings_view(v@),
{
    let mut r: Vec<String> = Vec::new();
    let mut i: usize = 0;
    while i < v.len()
        invariant
            i <= v.len(),
            r@.len() == i,
            forall|j: int| 0 <= j < i ==> #[trigger] r@[j]@ == v@[j]@,
        decreases v.len() - i,
    {
        r.push(v[i].clone());
        i = i + 1;
    }
    assert(strings_view(r@) =~= strings_view(v@));
    r
}

/// Whether `s` occurs in `v`.
pub fn contains_string(v: &Vec<String>, s: &String) -> (r: bool)
    ensures
        r == strings_view(v@).contains(s@),
{
    let mut i: usize = 0;
    while i < v.len()
        invariant
            i <= v.len(),
            forall|j: int| 0 <= j < i ==> v@[j]@ != s@,
        decreases v.len() - i,
    {
        if v[i] == *s {
            assert(strings_view(v@)[i as int] == s@);
            return true;
        }
        i = i + 1;
    }
    assert forall|j: int| 0 <= j < strings_view(v@).len() implies strings_view(v@)[j] != s@ by {
        assert(v@[j]@ != s@);
    }
    false
}

/// The first position of `s` in `v`.
pub fn position_of_string(v: &Vec<String>, s: &String) -> (r: Option<usize>)
    ensures
        match r {
            Some(k) => strings_view(v@).index_of_first(s@) == Some(k as int),
            None => strings_view(v@).index_of_first(s@) is None,
        },
{
    let mut i: usize = 0;
    while i < v.len()
        invariant
            i <= v.len(),
            forall|j: int| 0 <= j < i ==> v@[j]@ != s@,
        decreases v.len() - i,
    {
        if v[i] == *s {
            proof {
                let w = strings_view(v@);
                w.index_of_first_ensures(s@);
                assert(w[i as int] == s@);
                assert(w.contains(s@));
                let k = w.index_of_first(s@).unwrap();
                assert(w[k] == v@[k]@);
                if k < i {
                    assert(v@[k]@ != s@);
                }
                if i < k {
                    assert(w[i as int] != s@);
                }
            }
            return Some(i);
        }
        i = i + 1;
    }
    proof {
        let w = strings_view(v@);
        w.index_of_first_ensures(s@);
        if w.contains(s@) {
            let k = choose|k: int| 0 <= k < w.len() && w[k] == s@;
            assert(w[k] == v@[k]@);
            assert(v@[k]@ != s@);
        }
    }
    None
}

/// The position of `column` among the entries of `v`.
pub fn position_of_column(v: &Vec<ColumnValue>, column: &String) -> (r: Option<usize>)
    ensures
        match r {
            Some(q) => q < v@.len() && v@[q as int].column_name@ == column@,
            None => !column_values_map(v@).contains_key(column@),
        },
{
    let mut i: usize = 0;
    while i < v.len()
        invariant
            i <= v.len(),
            forall|j: int| 0 <= j < i ==> (#[trigger] v@[j]).column_name@ != column@,
        decreases v.len() - i,
    {
        if v[i].column_name == *column {
            return Some(i);
        }
        i = i + 1;
    }
    proof {
        lemma_column_values_map_domain(v@, column@);
    }
    None
}

impl Condition {
    pub fn duplicate(&self) -> (r: Condition)
        ensures
            r@ == self@,
    {
        Condition {
            column_name: self.column_name.clone(),
            data_type: self.data_type,
            value: self.value.clone(),
        }
    }
}

/// Copies a list of conditions.
pub fn clone_conditions(v: &Vec<Condition>) -> (r: Vec<Condition>)
    ensures
        conditions_view(r@) == conditions_view(v@),
{
    let mut r: Vec<Condition> = Vec::new();
    let mut i: usize = 0;
    while i < v.len()
        invariant
            i <= v.len(),
            r@.len() == i,
            forall|j: int| 0 <= j < i ==> #[trigger] r@[j]@ == v@[j]@,
        decreases v.len() - i,
    {
        r.push(v[i].duplicate());
        i = i + 1;
    }
    assert(conditions_view(r@) =~= conditions_view(v@));
    r
}

/// Whether two conditions address the same row.
pub fn conditions_equal(a: &Vec<Condition>, b: &Vec<Condition>) -> (r: bool)
    ensures
        r == (conditions_view(a@) == conditions_view(b@)),
{
    if a.len() != b.len() {
        assert(conditions_view(a@).len() != conditions_view(b@).len());
        return false;
    }
    let mut i: usize = 0;
    while i < a.len()
        invariant
            i <= a.len(),
            a.len() == b.len(),
            forall|j: int| 0 <= j < i ==> #[trigger] a@[j]@ == b@[j]@,
        decreases a.len() - i,
    {
        let x = &a[i];
        let y = &b[i];
        if !(x.column_name == y.column_name && x.data_type == y.data_type && x.value == y.value) {
            assert(conditions_view(a@)[i as int] != conditions_view(b@)[i as int]);
            return false;
        }
        i = i + 1;
    }
    assert(conditions_view(a@) =~= conditions_view(b@));
    true
}

impl ColumnValue {
    pub fn duplicate(&self) -> (r: ColumnValue)
        ensures
            same_entry(r, *self),
    {
        ColumnValue {
            column_name: self.column_name.clone(),
            data_type: self.data_type,
            value: self.value.clone(),
        }
    }
}

impl TableDataChangeEvent {
    /// A copy of this event with the same value.
    pub fn duplicate(&self) -> (r: TableDataChangeEvent)
        ensures
            r@ == self@,
            event_well_formed(*self) ==> event_well_formed(r),
    {
        match self {
            TableDataChangeEvent::InsertRow(d) => TableDataChangeEvent::InsertRow(RowInsertData {
                column_names: clone_strings(&d.column_names),
                data_types: d.data_types.clone(),
                values: clone_strings(&d.values),
            }),
            TableDataChangeEvent::ModifyRowColumnValue(m) => {
                let mut column_values: Vec<ColumnValue> = Vec::new();
                let mut i: usize = 0;
                while i < m.column_values.len()
                    invariant
                        i <= m.column_values.len(),
                        column_values@.len() == i,
                        forall|j: int|
                            0 <= j < i ==> same_entry(#[trigger] column_values@[j], m.column_values@[j]),
                    decreases m.column_values.len() - i,
                {
                    column_values.push(m.column_values[i].duplicate());
                    i = i + 1;
                }
                proof {
                    lemma_column_values_map_congruent(m.column_values@, column_values@);
                }
                TableDataChangeEvent::ModifyRowColumnValue(RowColumnValue {
                    conditions: clone_conditions(&m.conditions),
                    column_values,
                })
            },
            TableDataChangeEvent::DeleteRow(c) => TableDataChangeEvent::DeleteRow(
                clone_conditions(c),
            ),
        }
    }
}

} // verus!
