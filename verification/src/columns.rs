//! Typed column batches and their materialization into JSON rows.

use vstd::prelude::*;
use crate::json::row_insert;
use crate::json::JsonModel;
use crate::json::JsonValue;
use crate::json::Row;
use crate::json::RowModel;

verus! {

/// The cells of one column, by the column's type. A cell that is `None` is null.
#[derive(Debug, Clone, PartialEq, Eq)]
pub enum ColumnData {
    /// UTF-8 strings.
    Utf8(Vec<Option<String>>),
    /// 64-bit integers.
    Int64(Vec<Option<i64>>),
    /// Booleans.
    Boolean(Vec<Option<bool>>),
    /// Lists of UTF-8 strings; an entry of a list may itself be null.
    Utf8List(Vec<Option<Vec<Option<String>>>>),
    /// Timestamps in nanoseconds since the epoch.
    TimestampNanosecond(Vec<Option<i64>>),
    /// A column of any other type, of which only the number of cells is kept.
    Unsupported(usize),
}

/// Mathematical model of a [`ColumnData`].
pub ghost enum ColumnModel {
    Utf8(Seq<Option<Seq<char>>>),
    Int64(Seq<Option<i64>>),
    Boolean(Seq<Option<bool>>),
    Utf8List(Seq<Option<Seq<Option<Seq<char>>>>>),
    TimestampNanosecond(Seq<Option<i64>>),
    Unsupported(nat),
}

impl ColumnModel {
    /// Number of cells.
    pub open spec fn len(self) -> nat {
        match self {
            ColumnModel::Utf8(cells) => cells.len(),
            ColumnModel::Int64(cells) => cells.len(),
            ColumnModel::Boolean(cells) => cells.len(),
            ColumnModel::Utf8List(cells) => cells.len(),
            ColumnModel::TimestampNanosecond(cells) => cells.len(),
            ColumnModel::Unsupported(cells) => cells,
        }
    }
}

impl View for ColumnData {
    type V = ColumnModel;

    open spec fn view(&self) -> ColumnModel {
        match self {
            ColumnData::Utf8(cells) => ColumnModel::Utf8(cells.deep_view()),
            ColumnData::Int64(cells) => ColumnModel::Int64(cells.deep_view()),
            ColumnData::Boolean(cells) => ColumnModel::Boolean(cells.deep_view()),
            ColumnData::Utf8List(cells) => ColumnModel::Utf8List(cells.deep_view()),
            ColumnData::TimestampNanosecond(cells) => ColumnModel::TimestampNanosecond(
                cells.deep_view(),
            ),
            ColumnData::Unsupported(cells) => ColumnModel::Unsupported(*cells as nat),
        }
    }
}

/// Why a cell could not become a JSON value.
#[derive(Debug, Clone, Copy, PartialEq, Eq, Structural)]
pub enum ColumnError {
    /// The column's type has no JSON mapping.
    UnsupportedColumnType,
}

/// The entries of a list that are not null, in order.
pub open spec fn present_items(items: Seq<Option<Seq<char>>>) -> Seq<Seq<char>>
    decreases items.len(),
{
    if items.len() == 0 {
        Seq::empty()
    } else {
        let before = present_items(items.drop_last());
        match items.last() {
            Some(text) => before.push(text),
            None => before,
        }
    }
}

/// The JSON value of the cell at `row`: null stays null, a list loses its null
/// entries, and a column without a JSON mapping gives an error.
pub open spec fn cell_json(column: ColumnModel, row: int) -> Result<JsonModel, ColumnError> {
    match column {
        ColumnModel::Utf8(cells) => Ok(
            match cells[row] {
                Some(text) => JsonModel::String(text),
                None => JsonModel::Null,
            },
        ),
        ColumnModel::Int64(cells) => Ok(
            match cells[row] {
                Some(n) => JsonModel::Number(n as int),
                None => JsonModel::Null,
            },
        ),
        ColumnModel::Boolean(cells) => Ok(
            match cells[row] {
                Some(b) => JsonModel::Bool(b),
                None => JsonModel::Null,
            },
        ),
        ColumnModel::Utf8List(cells) => Ok(
            match cells[row] {
                Some(items) => JsonModel::Array(present_items(items)),
                None => JsonModel::Null,
            },
        ),
        ColumnModel::TimestampNanosecond(cells) => Ok(
            match cells[row] {
                Some(n) => JsonModel::Number(n as int),
                None => JsonModel::Null,
            },
        ),
        ColumnModel::Unsupported(_) => Err(ColumnError::UnsupportedColumnType),
    }
}

impl ColumnData {
    /// Number of cells.
    pub fn len(&self) -> (n: usize)
        ensures
            n == self@.len(),
    {
        match self {
            ColumnData::Utf8(cells) => cells.len(),
            ColumnData::Int64(cells) => cells.len(),
            ColumnData::Boolean(cells) => cells.len(),
            ColumnData::Utf8List(cells) => cells.len(),
            ColumnData::TimestampNanosecond(cells) => cells.len(),
            ColumnData::Unsupported(cells) => *cells,
        }
    }
}

fn collect_present(items: &Vec<Option<String>>) -> (present: Vec<String>)
    ensures
        present.deep_view() == present_items(items.deep_view()),
{
    let mut present: Vec<String> = Vec::new();
    let mut i: usize = 0;
    assert(present.deep_view() =~= present_items(items.deep_view().take(0)));
    while i < items.len()
        invariant
            i <= items.len(),
            present.deep_view() == present_items(items.deep_view().take(i as int)),
        decreases items.len() - i,
    {
        let ghost before = items.deep_view().take(i as int);
        let ghost after = items.deep_view().take(i + 1);
        let ghost kept = present.deep_view();
        assert(after.drop_last() =~= before);
        assert(after.last() == items[i as int].deep_view());
        match &items[i] {
            Some(text) => {
                present.push(text.clone());
                assert(present.deep_view() =~= kept.push(text@));
            },
            None => {},
        }
        i += 1;
    }
    assert(items.deep_view().take(items.len() as int) =~= items.deep_view());
    present
}

/// Converts the cell of `column` at `row_idx` into a JSON value.
pub fn convert_column_to_json(column: &ColumnData, row_idx: usize) -> (converted: Result<
    JsonValue,
    ColumnError,
>)
    requires
        row_idx < column@.len(),
    ensures
        match converted {
            Ok(value) => cell_json(column@, row_idx as int) == Ok::<JsonModel, ColumnError>(
                value@,
            ),
            Err(error) => cell_json(column@, row_idx as int) == Err::<JsonModel, ColumnError>(
                error,
            ),
        },
{
    match column {
        ColumnData::Utf8(cells) => {
            assert(cells.deep_view()[row_idx as int] == cells[row_idx as int].deep_view());
            match &cells[row_idx] {
                Some(text) => Ok(JsonValue::String(text.clone())),
                None => Ok(JsonValue::Null),
            }
        },
        ColumnData::Int64(cells) => {
            assert(cells.deep_view()[row_idx as int] == cells[row_idx as int].deep_view());
            match cells[row_idx] {
                Some(n) => Ok(JsonValue::Number(n)),
                None => Ok(JsonValue::Null),
            }
        },
        ColumnData::Boolean(cells) => {
            assert(cells.deep_view()[row_idx as int] == cells[row_idx as int].deep_view());
            match cells[row_idx] {
                Some(b) => Ok(JsonValue::Bool(b)),
                None => Ok(JsonValue::Null),
            }
        },
        ColumnData::Utf8List(cells) => {
            assert(cells.deep_view()[row_idx as int] == cells[row_idx as int].deep_view());
            match &cells[row_idx] {
                Some(items) => Ok(JsonValue::Array(collect_present(items))),
                None => Ok(JsonValue::Null),
            }
        },
        ColumnData::TimestampNanosecond(cells) => {
            assert(cells.deep_view()[row_idx as int] == cells[row_idx as int].deep_view());
            match cells[row_idx] {
                Some(n) => Ok(JsonValue::Number(n)),
                None => Ok(JsonValue::Null),
            }
        },
        ColumnData::Unsupported(_) => Err(ColumnError::UnsupportedColumnType),
    }
}

/// A named column.
#[derive(Debug, Clone, PartialEq, Eq)]
pub struct Column {
    pub name: String,
    pub data: ColumnData,
}

impl View for Column {
    type V = (Seq<char>, ColumnModel);

    open spec fn view(&self) -> (Seq<char>, ColumnModel) {
        (self.name@, self.data@)
    }
}

/// Model of a batch: its columns in order, and the number of rows they share.
pub ghost struct BatchModel {
    pub columns: Seq<(Seq<char>, ColumnModel)>,
    pub num_rows: nat,
}

impl BatchModel {
    /// Every column has one cell per row.
    pub open spec fn wf(self) -> bool {
        forall|c: int| 0 <= c < self.columns.len() ==> (#[trigger] self.columns[c]).1.len()
            == self.num_rows
    }
}

/// What a row has to do about a column whose type has no JSON mapping.
#[derive(Debug, Clone, Copy, PartialEq, Eq, Structural)]
pub enum Strictness {
    /// Leave the column out of the row.
    Lenient,
    /// Refuse the row.
    Strict,
}

/// Whether some column has a type without a JSON mapping.
pub open spec fn has_unsupported(columns: Seq<(Seq<char>, ColumnModel)>) -> bool {
    exists|c: int| 0 <= c < columns.len() && (#[trigger] columns[c]).1 is Unsupported
}

/// The row at index `row`: one field per column that has a JSON mapping, in column
/// order, set as [`row_insert`] sets a field.
pub open spec fn batch_row(columns: Seq<(Seq<char>, ColumnModel)>, row: int) -> RowModel
    decreases columns.len(),
{
    if columns.len() == 0 {
        Seq::empty()
    } else {
        let before = batch_row(columns.drop_last(), row);
        match cell_json(columns.last().1, row) {
            Ok(value) => row_insert(before, columns.last().0, value),
            Err(_) => before,
        }
    }
}

/// The rows of a batch, in index order.
pub open spec fn batch_rows(batch: BatchModel) -> Seq<RowModel> {
    Seq::new(batch.num_rows, |row: int| batch_row(batch.columns, row))
}

/// The rows of all batches: batch after batch, each in index order.
pub open spec fn all_rows(batches: Seq<BatchModel>) -> Seq<RowModel>
    decreases batches.len(),
{
    if batches.len() == 0 {
        Seq::empty()
    } else {
        all_rows(batches.drop_last()) + batch_rows(batches.last())
    }
}

/// A set of columns that share a row count.
#[derive(Debug, PartialEq, Eq)]
pub struct ColumnBatch {
    columns: Vec<Column>,
    num_rows: usize,
}

spec fn columns_model(columns: Seq<Column>) -> Seq<(Seq<char>, ColumnModel)> {
    Seq::new(columns.len(), |c: int| columns[c]@)
}

impl View for ColumnBatch {
    type V = BatchModel;

    closed spec fn view(&self) -> BatchModel {
        BatchModel { columns: columns_model(self.columns@), num_rows: self.num_rows as nat }
    }
}

impl ColumnBatch {
    #[verifier::type_invariant]
    spec fn columns_match_rows(&self) -> bool {
        self@.wf()
    }

    /// Builds a batch, or gives the columns back where one of them does not hold
    /// exactly `num_rows` cells.
    pub fn try_new(columns: Vec<Column>, num_rows: usize) -> (built: Result<
        ColumnBatch,
        Vec<Column>,
    >)
        ensures
            match built {
                Ok(batch) => {
                    &&& batch@.columns == Seq::new(columns@.len(), |c: int| columns@[c]@)
                    &&& batch@.num_rows == num_rows
                    &&& batch@.wf()
                },
                Err(given) => {
                    &&& given == columns
                    &&& exists|c: int|
                        0 <= c < columns@.len() && (#[trigger] columns@[c]).data@.len() != num_rows
                },
            },
    {
        let mut c: usize = 0;
        while c < columns.len()
            invariant
                c <= columns.len(),
                forall|k: int| 0 <= k < c ==> (#[trigger] columns@[k]).data@.len() == num_rows,
            decreases columns.len() - c,
        {
            if columns[c].data.len() != num_rows {
                return Err(columns);
            }
            c += 1;
        }
        assert(columns_model(columns@) =~= Seq::new(columns@.len(), |c: int| columns@[c]@));
        assert forall|k: int| 0 <= k < columns_model(columns@).len() implies (
        #[trigger] columns_model(columns@)[k]).1.len() == num_rows by {
            assert(columns@[k].data@.len() == num_rows);
        }
        Ok(ColumnBatch { columns, num_rows })
    }

    /// Number of rows.
    pub fn num_rows(&self) -> (n: usize)
        ensures
            n == self@.num_rows,
            self@.wf(),
    {
        proof {
            use_type_invariant(self);
        }
        self.num_rows
    }

    /// Number of columns.
    pub fn num_columns(&self) -> (n: usize)
        ensures
            n == self@.columns.len(),
    {
        self.columns.len()
    }

    /// Materializes the row at `row_idx`: one field per column, in column order.
    /// A column whose type has no JSON mapping is left out of a lenient row, and
    /// makes a strict row fail.
    pub fn materialize_row(&self, row_idx: usize, strictness: Strictness) -> (row: Result<
        Row,
        ColumnError,
    >)
        requires
            row_idx < self@.num_rows,
        ensures
            match row {
                Ok(fields) => {
                    &&& fields@ == batch_row(self@.columns, row_idx as int)
                    &&& !(strictness == Strictness::Strict && has_unsupported(self@.columns))
                },
                Err(error) => {
                    &&& error == ColumnError::UnsupportedColumnType
                    &&& strictness == Strictness::Strict
                    &&& has_unsupported(self@.columns)
                },
            },
    {
        proof {
            use_type_invariant(self);
        }
        let ghost columns = self@.columns;
        let mut row = Row::new();
        let mut c: usize = 0;
        assert(columns.take(0) =~= Seq::empty());
        while c < self.columns.len()
            invariant
                c <= self.columns.len(),
                columns == self@.columns,
                self@.wf(),
                row_idx < self@.num_rows,
                row@ == batch_row(columns.take(c as int), row_idx as int),
                strictness == Strictness::Strict ==> forall|k: int|
                    0 <= k < c ==> !((#[trigger] columns[k]).1 is Unsupported),
            decreases self.columns.len() - c,
        {
            let ghost before = columns.take(c as int);
            let ghost after = columns.take(c + 1);
            assert(after.drop_last() =~= before);
            assert(after.last() == columns[c as int]);
            assert(columns[c as int] == self.columns@[c as int]@);
            assert(columns[c as int].1.len() == self@.num_rows);
            match convert_column_to_json(&self.columns[c].data, row_idx) {
                Ok(value) => {
                    row.insert(self.columns[c].name.clone(), value);
                },
                Err(error) => {
                    match strictness {
                        Strictness::Strict => {
                            assert(columns[c as int].1 is Unsupported);
                            return Err(error);
                        },
                        Strictness::Lenient => {},
                    }
                },
            }
            c += 1;
        }
        assert(columns.take(self.columns.len() as int) =~= columns);
        Ok(row)
    }

    /// Materializes every row of the batch, in index order.
    pub fn materialize(&self, strictness: Strictness) -> (rows: Result<Vec<Row>, ColumnError>)
        ensures
            match rows {
                Ok(list) => {
                    &&& list.deep_view() == batch_rows(self@)
                    &&& !(strictness == Strictness::Strict && has_unsupported(self@.columns)
                        && self@.num_rows > 0)
                },
                Err(error) => {
                    &&& error == ColumnError::UnsupportedColumnType
                    &&& strictness == Strictness::Strict
                    &&& has_unsupported(self@.columns)
                    &&& self@.num_rows > 0
                },
            },
    {
        let mut rows: Vec<Row> = Vec::new();
        let mut r: usize = 0;
        while r < self.num_rows
            invariant
                r <= self.num_rows,
                rows.len() == r,
                forall|k: int| 0 <= k < r ==> (#[trigger] rows[k])@ == batch_row(self@.columns, k),
                r > 0 ==> !(strictness == Strictness::Strict && has_unsupported(self@.columns)),
            decreases self.num_rows - r,
        {
            match self.materialize_row(r, strictness) {
                Ok(row) => {
                    rows.push(row);
                },
                Err(error) => {
                    return Err(error);
                },
            }
            r += 1;
        }
        assert(rows.deep_view() =~= batch_rows(self@));
        Ok(rows)
    }
}

/// Whether some batch that has rows holds a column without a JSON mapping.
pub open spec fn any_unsupported(batches: Seq<BatchModel>) -> bool {
    exists|b: int|
        0 <= b < batches.len() && has_unsupported((#[trigger] batches[b]).columns)
            && batches[b].num_rows > 0
}

/// Materializes the rows of all batches into one list: batch after batch, each in
/// index order, so that the list does not depend on how the work is divided.
pub fn batches_to_json_rows(batches: &Vec<ColumnBatch>, strictness: Strictness) -> (rows: Result<
    Vec<Row>,
    ColumnError,
>)
    ensures
        match rows {
            Ok(list) => {
                &&& list.deep_view() == all_rows(batches.deep_view())
                &&& !(strictness == Strictness::Strict && any_unsupported(batches.deep_view()))
            },
            Err(error) => {
                &&& error == ColumnError::UnsupportedColumnType
                &&& strictness == Strictness::Strict
                &&& any_unsupported(batches.deep_view())
            },
        },
{
    let ghost models = batches.deep_view();
    let mut rows: Vec<Row> = Vec::new();
    let mut b: usize = 0;
    assert(models.take(0) =~= Seq::empty());
    assert(rows.deep_view() =~= all_rows(models.take(0)));
    while b < batches.len()
        invariant
            b <= batches.len(),
            models == batches.deep_view(),
            rows.deep_view() == all_rows(models.take(b as int)),
            strictness == Strictness::Strict ==> forall|k: int|
                0 <= k < b ==> !(has_unsupported((#[trigger] models[k]).columns)
                    && models[k].num_rows > 0),
        decreases batches.len() - b,
    {
        let ghost before = models.take(b as int);
        let ghost after = models.take(b + 1);
        assert(after.drop_last() =~= before);
        assert(after.last() == batches[b as int]@);
        match batches[b].materialize(strictness) {
            Ok(mut list) => {
                let ghost kept = rows.deep_view();
                let ghost added = list.deep_view();
                rows.append(&mut list);
                assert(rows.deep_view() =~= kept + added);
            },
            Err(error) => {
                assert(has_unsupported(models[b as int].columns) && models[b as int].num_rows > 0);
                return Err(error);
            },
        }
        b += 1;
    }
    assert(models.take(batches.len() as int) =~= models);
    Ok(rows)
}

impl DeepView for ColumnBatch {
    type V = BatchModel;

    open spec fn deep_view(&self) -> BatchModel {
        self@
    }
}

impl DeepView for Row {
    type V = RowModel;

    open spec fn deep_view(&self) -> RowModel {
        self@
    }
}

} // verus!
