//! Columns, schemas, and the check of a row against a schema.
use vstd::prelude::*;

use crate::error::{DbError, DbErrorView};
use crate::text::{eq_ignore_ascii_case, same_name, text_to_string};
use crate::value::{DataType, Value, ValueView, fits_spec, type_of_spec};

verus! {

/// The model of a column: its name and its type.
pub struct ColumnView {
    pub name: Seq<char>,
    pub data_type: DataType,
}

/// A named, typed column.
#[derive(Debug, PartialEq)]
pub struct Column {
    name: String,
    data_type: DataType,
}

impl View for Column {
    type V = ColumnView;

    closed spec fn view(&self) -> ColumnView {
        ColumnView { name: self.name@, data_type: self.data_type }
    }
}

impl Column {
    /// A column with the given name and type.
    pub fn new(name: &str, data_type: DataType) -> (r: Column)
        ensures
            r@ == (ColumnView { name: name@, data_type }),
    {
        Column { name: text_to_string(name), data_type: data_type }
    }

    /// The name, spelled as it was given.
    pub fn name(&self) -> (r: &str)
        ensures
            r@ == self@.name,
    {
        self.name.as_str()
    }

    /// The declared type.
    pub fn data_type(&self) -> (r: DataType)
        ensures
            r == self@.data_type,
    {
        self.data_type
    }

    /// Whether the column may hold `value`.
    pub fn accepts(&self, value: &Value) -> (r: bool)
        ensures
            r == fits_spec(value@, self@.data_type),
    {
        value.fits(self.data_type)
    }
}

impl Clone for Column {
    fn clone(&self) -> (r: Column)
        ensures
            r@ == self@,
    {
        Column { name: self.name.clone(), data_type: self.data_type }
    }
}

/// The models of a sequence of columns.
pub open spec fn column_views(cols: Seq<Column>) -> Seq<ColumnView> {
    cols.map_values(|c: Column| c@)
}

/// The models of a sequence of values.
pub open spec fn value_views(vals: Seq<Value>) -> Seq<ValueView> {
    vals.map_values(|v: Value| v@)
}

/// Column `i` repeats the name of an earlier column (ignoring ASCII case).
pub open spec fn repeats_earlier(cols: Seq<ColumnView>, i: int) -> bool {
    exists|j: int| 0 <= j < i && same_name(#[trigger] cols[j].name, cols[i].name)
}

/// Column `i` is the first column that repeats the name of an earlier one.
pub open spec fn first_repeat(cols: Seq<ColumnView>, i: int) -> bool {
    &&& 0 <= i < cols.len()
    &&& repeats_earlier(cols, i)
    &&& forall|k: int| 0 <= k < i ==> !repeats_earlier(cols, k)
}

/// What every schema holds: at least one column, and no two columns whose
/// names agree ignoring ASCII case.
pub open spec fn columns_valid(cols: Seq<ColumnView>) -> bool {
    &&& cols.len() > 0
    &&& forall|i: int, j: int|
        0 <= i < j < cols.len() ==> !same_name(#[trigger] cols[i].name, #[trigger] cols[j].name)
}

/// Column `i` is the first whose name matches `name` (ignoring ASCII case).
pub open spec fn first_match(cols: Seq<ColumnView>, name: Seq<char>, i: int) -> bool {
    &&& 0 <= i < cols.len()
    &&& same_name(cols[i].name, name)
    &&& forall|k: int| 0 <= k < i ==> !same_name(#[trigger] cols[k].name, name)
}

/// No column's name matches `name` (ignoring ASCII case).
pub open spec fn no_match(cols: Seq<ColumnView>, name: Seq<char>) -> bool {
    forall|k: int| 0 <= k < cols.len() ==> !same_name(#[trigger] cols[k].name, name)
}

/// A row may be stored under the columns: one value per column, each fitting
/// its column's type.
pub open spec fn row_fits(cols: Seq<ColumnView>, row: Seq<ValueView>) -> bool {
    &&& row.len() == cols.len()
    &&& forall|i: int| 0 <= i < row.len() ==> fits_spec(#[trigger] row[i], cols[i].data_type)
}

/// Value `i` is the first that does not fit its column.
pub open spec fn first_misfit(cols: Seq<ColumnView>, row: Seq<ValueView>, i: int) -> bool {
    &&& 0 <= i < row.len()
    &&& !fits_spec(row[i], cols[i].data_type)
    &&& forall|k: int| 0 <= k < i ==> fits_spec(#[trigger] row[k], cols[k].data_type)
}

/// The error a row check reports, when the row does not fit.
pub open spec fn row_error(cols: Seq<ColumnView>, row: Seq<ValueView>, e: DbErrorView) -> bool {
    if row.len() != cols.len() {
        e == DbErrorView::ArityMismatch { expected: cols.len() as usize, got: row.len() as usize }
    } else {
        exists|i: int|
            first_misfit(cols, row, i) && e == (DbErrorView::TypeMismatch {
                column: cols[i].name,
                expected: cols[i].data_type,
                got: type_of_spec(row[i]),
            })
    }
}

/// Column lookup ignores ASCII case: two names that agree ignoring case find
/// the same column, or both find none.
pub proof fn lemma_lookup_ignores_case(cols: Seq<ColumnView>, a: Seq<char>, b: Seq<char>, i: int)
    requires
        same_name(a, b),
    ensures
        first_match(cols, a, i) <==> first_match(cols, b, i),
        no_match(cols, a) <==> no_match(cols, b),
{
}

/// A row that fits has exactly one value per column, each fitting its
/// column; a row of any other length never fits and is refused with
/// `ArityMismatch`, naming the column count and the value count.
pub proof fn lemma_row_fits_arity(cols: Seq<ColumnView>, row: Seq<ValueView>)
    ensures
        row_fits(cols, row) ==> row.len() == cols.len(),
        row_fits(cols, row) ==> forall|i: int|
            0 <= i < cols.len() ==> fits_spec(#[trigger] row[i], cols[i].data_type),
        row.len() != cols.len() ==> !row_fits(cols, row),
        row.len() != cols.len() ==> forall|e: DbErrorView|
            #[trigger] row_error(cols, row, e) <==> e == (DbErrorView::ArityMismatch {
                expected: cols.len() as usize,
                got: row.len() as usize,
            }),
        row.len() == cols.len() && (exists|i: int|
            0 <= i < row.len() && !fits_spec(#[trigger] row[i], cols[i].data_type)) ==> !row_fits(
            cols,
            row,
        ),
{
}

/// In a valid schema a name matches at most one column, so the first match
/// is the only one.
pub proof fn lemma_match_is_unique(cols: Seq<ColumnView>, name: Seq<char>, i: int, k: int)
    requires
        columns_valid(cols),
        first_match(cols, name, i),
        0 <= k < cols.len(),
        same_name(cols[k].name, name),
    ensures
        k == i,
{
    if k > i {
        assert(!same_name(cols[i].name, cols[k].name));
    }
}

/// A row of `NULL`s of the right length fits every schema.
pub proof fn lemma_null_row_fits(cols: Seq<ColumnView>, row: Seq<ValueView>)
    requires
        row.len() == cols.len(),
        forall|i: int| 0 <= i < row.len() ==> (#[trigger] row[i]) is Null,
    ensures
        row_fits(cols, row),
{
}

/// An ordered list of uniquely named columns.
#[derive(Debug, PartialEq)]
pub struct Schema {
    columns: Vec<Column>,
}

impl View for Schema {
    type V = Seq<ColumnView>;

    closed spec fn view(&self) -> Seq<ColumnView> {
        column_views(self.columns@)
    }
}

impl Clone for Schema {
    fn clone(&self) -> (r: Schema)
        ensures
            r@ == self@,
    {
        proof {
            use_type_invariant(self);
        }
        let mut columns: Vec<Column> = Vec::new();
        let mut i: usize = 0;
        while i < self.columns.len()
            invariant
                0 <= i <= self.columns@.len(),
                columns@.len() == i,
                forall|k: int| 0 <= k < i ==> #[trigger] columns@[k]@ == self.columns@[k]@,
            decreases self.columns@.len() - i,
        {
            let c = self.columns[i].clone();
            assert(c@ == self.columns@[i as int]@);
            columns.push(c);
            i += 1;
        }
        assert(column_views(columns@) =~= column_views(self.columns@));
        Schema { columns }
    }
}

impl Schema {
    #[verifier::type_invariant]
    spec fn valid(&self) -> bool {
        columns_valid(column_views(self.columns@))
    }

    /// A schema from its columns; refused when there are none, or when a
    /// column repeats an earlier column's name ignoring ASCII case (the first
    /// such column is named in the error).
    pub fn new(columns: Vec<Column>) -> (r: Result<Schema, DbError>)
        ensures
            r is Ok <==> columns_valid(column_views(columns@)),
            r matches Ok(s) ==> s@ == column_views(columns@),
            r matches Err(e) ==> {
                ||| columns@.len() == 0 && e@ == DbErrorView::EmptySchema
                ||| columns@.len() > 0 && exists|i: int|
                    first_repeat(column_views(columns@), i) && e@ == (DbErrorView::DuplicateColumn {
                        name: column_views(columns@)[i].name,
                    })
            },
    {
        let ghost cols = column_views(columns@);
        if columns.len() == 0 {
            return Err(DbError::EmptySchema);
        }
        let mut i: usize = 0;
        while i < columns.len()
            invariant
                0 <= i <= columns@.len(),
                cols == column_views(columns@),
                forall|k: int| 0 <= k < i ==> !repeats_earlier(cols, k),
            decreases columns@.len() - i,
        {
            let mut j: usize = 0;
            while j < i
                invariant
                    0 <= j <= i < columns@.len(),
                    cols == column_views(columns@),
                    forall|k: int| 0 <= k < i ==> !repeats_earlier(cols, k),
                    forall|k: int| 0 <= k < j ==> !same_name(#[trigger] cols[k].name, cols[i as int].name),
                decreases i - j,
            {
                if eq_ignore_ascii_case(columns[j].name.as_str(), columns[i].name.as_str()) {
                    assert(same_name(cols[j as int].name, cols[i as int].name));
                    assert(first_repeat(cols, i as int));
                    return Err(DbError::DuplicateColumn { name: columns[i].name.clone() });
                }
                j += 1;
            }
            i += 1;
        }
        assert(columns_valid(cols)) by {
            assert forall|a: int, b: int| 0 <= a < b < cols.len() implies !same_name(
                #[trigger] cols[a].name,
                #[trigger] cols[b].name,
            ) by {
                assert(!repeats_earlier(cols, b));
            }
        }
        Ok(Schema { columns })
    }

    /// The columns, in order. Every schema has at least one column, and no
    /// two of its columns share a name ignoring ASCII case.
    pub fn columns(&self) -> (r: &[Column])
        ensures
            column_views(r@) == self@,
            columns_valid(self@),
    {
        proof {
            use_type_invariant(self);
        }
        self.columns.as_slice()
    }

    /// The number of columns.
    pub fn len(&self) -> (r: usize)
        ensures
            r == self@.len(),
            r > 0,
    {
        proof {
            use_type_invariant(self);
        }
        self.columns.len()
    }

    /// Whether there are no columns (never, for a schema).
    pub fn is_empty(&self) -> (r: bool)
        ensures
            r == (self@.len() == 0),
            !r,
    {
        proof {
            use_type_invariant(self);
        }
        self.columns.len() == 0
    }

    /// The column at position `index`.
    pub fn column(&self, index: usize) -> (r: Option<&Column>)
        ensures
            r is Some <==> index < self@.len(),
            r matches Some(c) ==> c@ == self@[index as int],
    {
        if index < self.columns.len() {
            Some(&self.columns[index])
        } else {
            None
        }
    }

    /// The position of the column named `name`, ignoring ASCII case.
    pub fn column_index(&self, name: &str) -> (r: Option<usize>)
        ensures
            r is None <==> no_match(self@, name@),
            r matches Some(i) ==> first_match(self@, name@, i as int),
    {
        let mut i: usize = 0;
        while i < self.columns.len()
            invariant
                0 <= i <= self.columns@.len(),
                forall|k: int| 0 <= k < i ==> !same_name(#[trigger] self@[k].name, name@),
            decreases self.columns@.len() - i,
        {
            if eq_ignore_ascii_case(self.columns[i].name.as_str(), name) {
                assert(same_name(self@[i as int].name, name@));
                return Some(i);
            }
            i += 1;
        }
        None
    }

    /// The column named `name`, ignoring ASCII case.
    pub fn column_by_name(&self, name: &str) -> (r: Option<&Column>)
        ensures
            r is None <==> no_match(self@, name@),
            r matches Some(c) ==> exists|i: int| first_match(self@, name@, i) && c@ == self@[i],
    {
        match self.column_index(name) {
            Some(i) => self.column(i),
            None => None,
        }
    }

    /// The position of the column named `name`, ignoring ASCII case, or
    /// `NoSuchColumn` naming it.
    pub fn resolve(&self, name: &str) -> (r: Result<usize, DbError>)
        ensures
            r is Err <==> no_match(self@, name@),
            r matches Ok(i) ==> first_match(self@, name@, i as int),
            r matches Err(e) ==> e@ == (DbErrorView::NoSuchColumn { name: name@ }),
    {
        match self.column_index(name) {
            Some(i) => Ok(i),
            None => Err(DbError::NoSuchColumn { name: text_to_string(name) }),
        }
    }

    /// Checks a row against the schema: `ArityMismatch` when the number of
    /// values differs from the number of columns, else `TypeMismatch` for the
    /// first value that does not fit its column.
    pub fn validate_row(&self, row: &[Value]) -> (r: Result<(), DbError>)
        ensures
            r is Ok <==> row_fits(self@, value_views(row@)),
            r matches Err(e) ==> row_error(self@, value_views(row@), e@),
    {
        let ghost vals = value_views(row@);
        if row.len() != self.columns.len() {
            return Err(DbError::ArityMismatch { expected: self.columns.len(), got: row.len() });
        }
        let mut i: usize = 0;
        while i < row.len()
            invariant
                0 <= i <= row@.len(),
                row@.len() == self@.len(),
                vals == value_views(row@),
                forall|k: int| 0 <= k < i ==> fits_spec(#[trigger] vals[k], self@[k].data_type),
            decreases row@.len() - i,
        {
            if !self.columns[i].accepts(&row[i]) {
                assert(first_misfit(self@, vals, i as int));
                return Err(
                    DbError::TypeMismatch {
                        column: self.columns[i].name.clone(),
                        expected: self.columns[i].data_type,
                        got: row[i].type_of(),
                    },
                );
            }
            i += 1;
        }
        Ok(())
    }
}

} // verus!
