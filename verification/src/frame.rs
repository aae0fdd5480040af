//! A table of named, typed columns, as a dataframe engine hands it over
//! after loading a file.

use crate::text::{cell_text, texts};
use crate::error::DataError;
use vstd::prelude::*;

verus! {

/// One column of a table.
#[derive(Debug, PartialEq, Eq)]
pub enum Column {
    /// Numbers, each the bit pattern of a double; `None` is a cell that is
    /// missing or could not be read as a number.
    Numeric(Vec<Option<u64>>),
    /// Text; `None` is a missing cell.
    Text(Vec<Option<String>>),
}

/// What a column holds, as mathematical sequences.
pub enum ColumnView {
    Numeric(Seq<Option<u64>>),
    Text(Seq<Option<Seq<char>>>),
}

impl ColumnView {
    /// The number of cells.
    pub open spec fn len(self) -> nat {
        match self {
            ColumnView::Numeric(cells) => cells.len(),
            ColumnView::Text(cells) => cells.len(),
        }
    }
}

impl View for Column {
    type V = ColumnView;

    open spec fn view(&self) -> ColumnView {
        match self {
            Column::Numeric(cells) => ColumnView::Numeric(cells@),
            Column::Text(cells) => ColumnView::Text(cells@.map_values(|c: Option<String>| cell_text(c))),
        }
    }
}

impl Column {
    /// The number of cells.
    pub fn len(&self) -> (n: usize)
        ensures
            n == self@.len(),
    {
        match self {
            Column::Numeric(cells) => cells.len(),
            Column::Text(cells) => cells.len(),
        }
    }
}

/// The views of a sequence of columns.
pub open spec fn column_views(columns: Seq<Column>) -> Seq<ColumnView> {
    columns.map_values(|c: Column| c@)
}

/// What a table holds: the column names, in the same order the columns, and
/// the number of rows.
pub struct TableView {
    pub names: Seq<Seq<char>>,
    pub columns: Seq<ColumnView>,
    pub height: nat,
}

impl TableView {
    /// The number of columns.
    pub open spec fn width(self) -> nat {
        self.columns.len()
    }

    /// Every column has a name and as many cells as the table has rows, and
    /// no name occurs twice.
    pub open spec fn well_formed(self) -> bool {
        &&& self.names.len() == self.columns.len()
        &&& forall|i: int| 0 <= i < self.columns.len() ==> (#[trigger] self.columns[i]).len() == self.height
        &&& self.names.no_duplicates()
    }

    /// Whether a column is named `name`.
    pub open spec fn has_column(self, name: Seq<char>) -> bool {
        self.names.contains(name)
    }

    /// The index of the column named `name`, where there is one.
    pub open spec fn position(self, name: Seq<char>) -> int
        recommends
            self.has_column(name),
    {
        self.names.index_of(name)
    }

    /// The table without the column at `index`. It keeps its rows, also
    /// when no column is left.
    pub open spec fn without(self, index: int) -> TableView
        recommends
            0 <= index < self.columns.len(),
    {
        TableView {
            names: self.names.remove(index),
            columns: self.columns.remove(index),
            height: self.height,
        }
    }
}

/// A table of named columns of equal length.
#[derive(Debug, PartialEq, Eq)]
pub struct Table {
    names: Vec<String>,
    columns: Vec<Column>,
    height: usize,
}

impl View for Table {
    type V = TableView;

    closed spec fn view(&self) -> TableView {
        TableView {
            names: texts(self.names@),
            columns: column_views(self.columns@),
            height: self.height as nat,
        }
    }
}

/// Whether some column differs in length from the first one.
pub open spec fn has_ragged_column(columns: Seq<ColumnView>) -> bool {
    exists|i: int| 0 <= i < columns.len() && (#[trigger] columns[i]).len() != columns[0].len()
}

impl Table {
    /// Every table is well formed.
    #[verifier::type_invariant]
    pub open spec fn inv(&self) -> bool {
        self@.well_formed()
    }

    /// Builds a table from column names and columns. It has as many rows as
    /// the first column has cells, and none when there is no column.
    ///
    /// Fails with `ShapeMismatch` when the number of names differs from the
    /// number of columns or the columns are not equally long, otherwise with
    /// `Duplicate` when a name occurs twice.
    pub fn new(names: Vec<String>, columns: Vec<Column>) -> (table: Result<Table, DataError>)
        ensures
            match table {
                Ok(t) => {
                    &&& t@.names == texts(names@)
                    &&& t@.columns == column_views(columns@)
                    &&& t@.height == (if columns@.len() == 0 {
                        0
                    } else {
                        columns@[0]@.len()
                    })
                    &&& t@.well_formed()
                },
                Err(DataError::ShapeMismatch) => names@.len() != columns@.len() || has_ragged_column(
                    column_views(columns@),
                ),
                Err(DataError::Duplicate) => {
                    &&& names@.len() == columns@.len()
                    &&& !has_ragged_column(column_views(columns@))
                    &&& !texts(names@).no_duplicates()
                },
                Err(_) => false,
            },
    {
        if names.len() != columns.len() {
            return Err(DataError::ShapeMismatch);
        }
        let ghost views = column_views(columns@);
        let mut i: usize = 1;
        while i < columns.len()
            invariant
                1 <= i,
                views == column_views(columns@),
                forall|k: int| 0 <= k < i && k < views.len() ==> (#[trigger] views[k]).len() == views[0].len(),
            decreases columns.len() - i,
        {
            if columns[i].len() != columns[0].len() {
                assert(views[i as int].len() != views[0].len());
                return Err(DataError::ShapeMismatch);
            }
            i += 1;
        }
        assert(!has_ragged_column(views));
        let ghost labels = texts(names@);
        let mut a: usize = 0;
        while a < names.len()
            invariant
                a <= names.len(),
                names@.len() == columns@.len(),
                !has_ragged_column(column_views(columns@)),
                labels == texts(names@),
                forall|p: int, q: int| 0 <= p < q < a ==> labels[p] != labels[q],
            decreases names.len() - a,
        {
            let mut b: usize = 0;
            while b < a
                invariant
                    b <= a < names.len(),
                    names@.len() == columns@.len(),
                    !has_ragged_column(column_views(columns@)),
                    labels == texts(names@),
                    forall|p: int| 0 <= p < b ==> labels[p] != labels[a as int],
                decreases a - b,
            {
                if names[b] == names[a] {
                    assert(labels[b as int] == labels[a as int]);
                    return Err(DataError::Duplicate);
                }
                b += 1;
            }
            a += 1;
        }
        let height = if columns.len() == 0 {
            0
        } else {
            columns[0].len()
        };
        Ok(Table { names, columns, height })
    }

    /// The index of the column named `name`, or `None` when no column
    /// carries that name.
    pub fn position(&self, name: &str) -> (found: Option<usize>)
        ensures
            match found {
                Some(i) => self@.has_column(name@) && i == self@.position(name@) && i < self@.width(),
                None => !self@.has_column(name@),
            },
    {
        proof {
            use_type_invariant(self);
        }
        let key = name.to_owned();
        let ghost labels = texts(self.names@);
        let mut i: usize = 0;
        while i < self.names.len()
            invariant
                i <= self.names.len(),
                labels == texts(self.names@),
                labels.len() == self@.width(),
                labels == self@.names,
                labels.no_duplicates(),
                key@ == name@,
                forall|k: int| 0 <= k < i ==> labels[k] != name@,
            decreases self.names.len() - i,
        {
            if self.names[i] == key {
                assert(labels[i as int] == name@);
                return Some(i);
            }
            i += 1;
        }
        None
    }

    /// The column named `name`.
    ///
    /// Fails with `ColumnNotFound` exactly when no column carries that name.
    pub fn column(&self, name: &str) -> (found: Result<&Column, DataError>)
        ensures
            match found {
                Ok(column) => self@.has_column(name@) && column@ == self@.columns[self@.position(name@)],
                Err(e) => e == DataError::ColumnNotFound && !self@.has_column(name@),
            },
    {
        match self.position(name) {
            Some(i) => Ok(&self.columns[i]),
            None => Err(DataError::ColumnNotFound),
        }
    }

    /// Removes the column named `name` and returns it together with the
    /// table of the remaining columns, which keep their order.
    ///
    /// Fails with `ColumnNotFound` exactly when no column carries that name.
    pub fn take_column(self, name: &str) -> (parts: Result<(Column, Table), DataError>)
        ensures
            match parts {
                Ok((column, rest)) => {
                    &&& self@.has_column(name@)
                    &&& column@ == self@.columns[self@.position(name@)]
                    &&& rest@ == self@.without(self@.position(name@))
                    &&& rest@.well_formed()
                },
                Err(e) => e == DataError::ColumnNotFound && !self@.has_column(name@),
            },
    {
        proof {
            use_type_invariant(&self);
        }
        match self.position(name) {
            Some(i) => {
                let ghost before = self@;
                let mut names = self.names;
                let mut columns = self.columns;
                names.remove(i);
                let column = columns.remove(i);
                proof {
                    assert(texts(names@) =~= before.names.remove(i as int));
                    assert(column_views(columns@) =~= before.columns.remove(i as int));
                    lemma_without_well_formed(before, i as int);
                }
                Ok((column, Table { names, columns, height: self.height }))
            },
            None => Err(DataError::ColumnNotFound),
        }
    }

    /// The column names, in column order.
    pub fn names(&self) -> (names: &Vec<String>)
        ensures
            texts(names@) == self@.names,
    {
        &self.names
    }

    /// The columns, in order.
    pub fn columns(&self) -> (columns: &Vec<Column>)
        ensures
            column_views(columns@) == self@.columns,
    {
        &self.columns
    }

    /// The number of columns.
    pub fn width(&self) -> (n: usize)
        ensures
            n == self@.width(),
    {
        self.columns.len()
    }

    /// The number of rows.
    pub fn height(&self) -> (n: usize)
        ensures
            n == self@.height,
    {
        self.height
    }
}

/// Removing a column from a well-formed table leaves a well-formed table
/// with one column less and the same rows.
pub proof fn lemma_without_well_formed(table: TableView, index: int)
    requires
        table.well_formed(),
        0 <= index < table.width(),
    ensures
        table.without(index).well_formed(),
        table.without(index).width() == table.width() - 1,
        table.without(index).height == table.height,
{
    let rest = table.without(index);
    assert forall|i: int| 0 <= i < rest.columns.len() implies (#[trigger] rest.columns[i]).len()
        == rest.height by {
        assert(rest.columns[i] == table.columns[if i < index { i } else { i + 1 }]);
    }
    assert forall|i: int, j: int| 0 <= i < rest.names.len() && 0 <= j < rest.names.len() && i != j
        implies rest.names[i] != rest.names[j] by {
        assert(rest.names[i] == table.names[if i < index { i } else { i + 1 }]);
        assert(rest.names[j] == table.names[if j < index { j } else { j + 1 }]);
    }
}

} // verus!
