//! Datasets of numeric records and text targets: how a loaded table becomes
//! one, and how one is split into a training and a test part.

use crate::text::{cell_text, texts};
use crate::error::DataError;
use crate::frame::{column_views, Column, ColumnView, Table, TableView};
use vstd::prelude::*;

verus! {

/// The value that stands for a numeric cell: the cell's own bits, and the
/// all-zero pattern, which is `+0.0`, for a cell that is missing or was not
/// readable as a number.
pub open spec fn cell_bits(cell: Option<u64>) -> u64 {
    match cell {
        Some(bits) => bits,
        None => 0,
    }
}

/// The value that stands for row `row` of a column among the features. A
/// numeric cell gives `cell_bits`. A column that holds text holds no number
/// at all: each of its cells reads as zero.
pub open spec fn feature_value(column: ColumnView, row: int) -> u64
    recommends
        0 <= row < column.len(),
{
    match column {
        ColumnView::Numeric(cells) => cell_bits(cells[row]),
        ColumnView::Text(_) => 0,
    }
}

/// The feature matrix of a table, row by row: one record per table row,
/// holding that row's value of every column in column order.
pub open spec fn feature_matrix(table: TableView) -> Seq<Seq<u64>> {
    Seq::new(
        table.height,
        |r: int| Seq::new(table.width(), |c: int| feature_value(table.columns[c], r)),
    )
}

/// The feature matrix has one record per table row and one value per
/// column. The value is the bits of its cell where the cell holds a number,
/// and zero where the cell is missing, was not readable as a number, or
/// belongs to a column of text.
pub proof fn lemma_feature_matrix_cells(table: TableView, row: int, column: int)
    requires
        table.well_formed(),
        0 <= row < table.height,
        0 <= column < table.width(),
    ensures
        feature_matrix(table).len() == table.height,
        feature_matrix(table)[row].len() == table.width(),
        feature_matrix(table)[row][column] == (match table.columns[column] {
            ColumnView::Numeric(cells) => match cells[row] {
                Some(bits) => bits,
                None => 0,
            },
            ColumnView::Text(_) => 0,
        }),
{
}

/// The contents of a vector of records.
pub open spec fn records_view(records: Seq<Vec<u64>>) -> Seq<Seq<u64>> {
    records.map_values(|record: Vec<u64>| record@)
}

/// The cells of a text column that are present, in their order.
pub open spec fn present_texts(cells: Seq<Option<Seq<char>>>) -> Seq<Seq<char>> {
    cells.filter_map(|cell: Option<Seq<char>>| cell)
}

/// Turns a table into its feature matrix. A cell that is missing or was not
/// readable as a number becomes zero, and so does every cell of a column
/// that holds text. This never fails.
pub fn feature_rows(features: &Table) -> (records: Vec<Vec<u64>>)
    ensures
        records_view(records@) == feature_matrix(features@),
{
    proof {
        use_type_invariant(features);
    }
    let columns = features.columns();
    let height = features.height();
    let width = columns.len();
    let ghost table = features@;
    let mut records: Vec<Vec<u64>> = Vec::new();
    let mut r: usize = 0;
    while r < height
        invariant
            r <= height == table.height,
            width == columns@.len() == table.width(),
            table.columns == column_views(columns@),
            table.well_formed(),
            records@.len() == r,
            forall|i: int| 0 <= i < r ==> (#[trigger] records@[i])@ == feature_matrix(table)[i],
        decreases height - r,
    {
        let mut record: Vec<u64> = Vec::new();
        let mut c: usize = 0;
        while c < width
            invariant
                r < height == table.height,
                c <= width == columns@.len() == table.width(),
                table.columns == column_views(columns@),
                table.well_formed(),
                record@.len() == c,
                forall|k: int| 0 <= k < c ==> #[trigger] record@[k] == feature_value(table.columns[k], r as int),
            decreases width - c,
        {
            assert(table.columns[c as int].len() == table.height);
            assert(table.columns[c as int] == columns@[c as int]@);
            let bits = match &columns[c] {
                Column::Numeric(cells) => match cells[r] {
                    Some(bits) => bits,
                    None => 0,
                },
                Column::Text(_) => 0,
            };
            record.push(bits);
            c += 1;
        }
        assert(record@ =~= feature_matrix(table)[r as int]);
        records.push(record);
        r += 1;
    }
    assert(records_view(records@) =~= feature_matrix(table));
    records
}

/// The labels of a text column: its present cells, in their order. Missing
/// cells are left out.
///
/// Fails with `SchemaMismatch` exactly when the column holds numbers.
pub fn present_labels(column: &Column) -> (labels: Result<Vec<String>, DataError>)
    ensures
        match labels {
            Ok(found) => column@ matches ColumnView::Text(cells) && texts(found@) == present_texts(cells),
            Err(e) => e == DataError::SchemaMismatch && column@ is Numeric,
        },
{
    match column {
        Column::Numeric(_) => Err(DataError::SchemaMismatch),
        Column::Text(cells) => {
            let ghost all = column@->Text_0;
            let mut found: Vec<String> = Vec::new();
            let mut i: usize = 0;
            while i < cells.len()
                invariant
                    i <= cells.len(),
                    all == cells@.map_values(|c: Option<String>| cell_text(c)),
                    texts(found@) == present_texts(all.take(i as int)),
                decreases cells.len() - i,
            {
                proof {
                    all.lemma_filter_map_take_succ(|cell: Option<Seq<char>>| cell, i as int);
                }
                match &cells[i] {
                    Some(label) => {
                        found.push(label.clone());
                        assert(texts(found@) =~= present_texts(all.take(i as int)).push(label@));
                    },
                    None => {},
                }
                i += 1;
            }
            assert(all.take(cells.len() as int) =~= all);
            Ok(found)
        },
    }
}

/// Where every cell of a text column is present, the present cells are all
/// the cells; where one is missing, they are fewer.
pub proof fn lemma_present_texts(cells: Seq<Option<Seq<char>>>)
    ensures
        present_texts(cells).len() <= cells.len(),
        (forall|i: int| 0 <= i < cells.len() ==> (#[trigger] cells[i]) is Some) <==> present_texts(
            cells,
        ).len() == cells.len(),
        present_texts(cells).len() == cells.len() ==> present_texts(cells) == cells.map_values(
            |cell: Option<Seq<char>>| cell->Some_0,
        ),
    decreases cells.len(),
{
    let unwrapped = cells.map_values(|cell: Option<Seq<char>>| cell->Some_0);
    if cells.len() == 0 {
        assert(present_texts(cells) =~= unwrapped);
    } else {
        let front = cells.drop_last();
        lemma_present_texts(front);
        if present_texts(cells).len() == cells.len() {
            assert(cells.last() is Some);
            assert forall|i: int| 0 <= i < cells.len() implies (#[trigger] cells[i]) is Some by {
                if i < front.len() {
                    assert(front[i] is Some);
                }
            }
            assert(present_texts(cells) =~= unwrapped);
        } else if forall|i: int| 0 <= i < cells.len() ==> (#[trigger] cells[i]) is Some {
            assert(cells.last() is Some);
            assert forall|i: int| 0 <= i < front.len() implies (#[trigger] front[i]) is Some by {
                assert(cells[i] is Some);
            }
        }
    }
}

/// The table that remains when the column named `label` is taken out.
pub open spec fn features_of(table: TableView, label: Seq<char>) -> TableView
    recommends
        table.has_column(label),
{
    table.without(table.position(label))
}

/// The column named `label`.
pub open spec fn label_column_of(table: TableView, label: Seq<char>) -> ColumnView
    recommends
        table.has_column(label),
{
    table.columns[table.position(label)]
}

/// What a dataset holds: the number of features, one record of feature
/// values per sample, and one target label per sample.
pub struct DatasetView {
    pub n_features: nat,
    pub records: Seq<Seq<u64>>,
    pub targets: Seq<Seq<char>>,
}

impl DatasetView {
    /// The number of samples.
    pub open spec fn n_samples(self) -> nat {
        self.records.len()
    }

    /// Every sample has a target, and every record has one value per
    /// feature.
    pub open spec fn well_formed(self) -> bool {
        &&& self.targets.len() == self.records.len()
        &&& forall|i: int| 0 <= i < self.records.len() ==> (#[trigger] self.records[i]).len() == self.n_features
    }

    /// The dataset of the first `n` samples.
    pub open spec fn first(self, n: int) -> DatasetView
        recommends
            0 <= n <= self.n_samples(),
    {
        DatasetView {
            n_features: self.n_features,
            records: self.records.take(n),
            targets: self.targets.take(n),
        }
    }

    /// The dataset of the samples after the first `n`.
    pub open spec fn after(self, n: int) -> DatasetView
        recommends
            0 <= n <= self.n_samples(),
    {
        DatasetView {
            n_features: self.n_features,
            records: self.records.skip(n),
            targets: self.targets.skip(n),
        }
    }
}

/// Samples for a classifier: records of feature values with their target
/// labels.
#[derive(Debug, PartialEq, Eq)]
pub struct Dataset {
    n_features: usize,
    records: Vec<Vec<u64>>,
    targets: Vec<String>,
}

impl View for Dataset {
    type V = DatasetView;

    closed spec fn view(&self) -> DatasetView {
        DatasetView {
            n_features: self.n_features as nat,
            records: records_view(self.records@),
            targets: texts(self.targets@),
        }
    }
}

impl Dataset {
    /// Every dataset is well formed.
    #[verifier::type_invariant]
    pub open spec fn inv(&self) -> bool {
        self@.well_formed()
    }

    /// Pairs records with their targets.
    ///
    /// Fails with `ShapeMismatch` exactly when the numbers of records and
    /// targets differ or some record does not have `n_features` values.
    pub fn new(n_features: usize, records: Vec<Vec<u64>>, targets: Vec<String>) -> (dataset: Result<
        Dataset,
        DataError,
    >)
        ensures
            match dataset {
                Ok(d) => {
                    &&& d@.n_features == n_features
                    &&& d@.records == records_view(records@)
                    &&& d@.targets == texts(targets@)
                    &&& d@.well_formed()
                },
                Err(e) => e == DataError::ShapeMismatch && !(DatasetView {
                    n_features: n_features as nat,
                    records: records_view(records@),
                    targets: texts(targets@),
                }).well_formed(),
            },
    {
        if records.len() != targets.len() {
            return Err(DataError::ShapeMismatch);
        }
        let ghost rows = records_view(records@);
        let mut i: usize = 0;
        while i < records.len()
            invariant
                i <= records.len(),
                rows == records_view(records@),
                forall|k: int| 0 <= k < i ==> (#[trigger] rows[k]).len() == n_features,
            decreases records.len() - i,
        {
            if records[i].len() != n_features {
                assert(rows[i as int].len() != n_features);
                return Err(DataError::ShapeMismatch);
            }
            i += 1;
        }
        Ok(Dataset { n_features, records, targets })
    }

    /// The number of samples.
    pub fn nsamples(&self) -> (n: usize)
        ensures
            n == self@.n_samples(),
    {
        self.records.len()
    }

    /// The number of features of every record.
    pub fn nfeatures(&self) -> (n: usize)
        ensures
            n == self@.n_features,
    {
        self.n_features
    }

    /// The records, one per sample.
    pub fn records(&self) -> (records: &Vec<Vec<u64>>)
        ensures
            records_view(records@) == self@.records,
    {
        &self.records
    }

    /// The targets, one per sample.
    pub fn targets(&self) -> (targets: &Vec<String>)
        ensures
            texts(targets@) == self@.targets,
    {
        &self.targets
    }
}

/// Separates the column named `label` from the other columns of a loaded
/// table and pairs the feature matrix of the others with its labels.
///
/// The dataset has one feature per remaining column, in column order, and
/// one sample per table row, in row order. A feature value that is missing
/// or was not readable as a number is zero; so is every value of a
/// remaining column that holds text.
///
/// Fails with `ColumnNotFound` when no column is named `label`; otherwise
/// with `SchemaMismatch` when the label column holds numbers; otherwise with
/// `ShapeMismatch` when a label is missing, so that there are fewer labels
/// than rows.
pub fn into_dataset(table: Table, label: &str) -> (dataset: Result<Dataset, DataError>)
    ensures
        match dataset {
            Ok(d) => {
                &&& table@.has_column(label@)
                &&& label_column_of(table@, label@) matches ColumnView::Text(cells)
                &&& forall|r: int| 0 <= r < cells.len() ==> (#[trigger] cells[r]) is Some
                &&& d@.n_features == table@.width() - 1
                &&& d@.n_samples() == table@.height
                &&& d@.targets.len() == table@.height
                &&& d@.records == feature_matrix(features_of(table@, label@))
                &&& d@.targets == cells.map_values(|cell: Option<Seq<char>>| cell->Some_0)
                &&& d@.well_formed()
            },
            Err(DataError::ColumnNotFound) => !table@.has_column(label@),
            Err(DataError::SchemaMismatch) => {
                &&& table@.has_column(label@)
                &&& label_column_of(table@, label@) is Numeric
            },
            Err(DataError::ShapeMismatch) => {
                &&& table@.has_column(label@)
                &&& label_column_of(table@, label@) matches ColumnView::Text(cells)
                &&& exists|r: int| 0 <= r < cells.len() && (#[trigger] cells[r]) is None
            },
            Err(_) => false,
        },
{
    proof {
        use_type_invariant(&table);
    }
    let height = table.height();
    let (column, features) = match table.take_column(label) {
        Ok(parts) => parts,
        Err(_) => {
            return Err(DataError::ColumnNotFound);
        },
    };
    let targets = match present_labels(&column) {
        Ok(targets) => targets,
        Err(_) => {
            return Err(DataError::SchemaMismatch);
        },
    };
    let ghost cells = column@->Text_0;
    proof {
        lemma_present_texts(cells);
        assert(cells.len() == table@.height);
    }
    if targets.len() != height {
        return Err(DataError::ShapeMismatch);
    }
    let records = feature_rows(&features);
    let n_features = features.width();
    Ok(Dataset { n_features, records, targets })
}

/// Of every ten samples, nine train the model.
pub const TRAIN_PARTS: usize = 9;

/// The parts into which the samples are divided.
pub const ALL_PARTS: usize = 10;

/// The size of the training part of `total` samples: nine tenths of them,
/// rounded to the nearest whole number, a half rounding up.
pub open spec fn train_size(total: nat) -> nat {
    ((TRAIN_PARTS * total + ALL_PARTS / 2) / (ALL_PARTS as int)) as nat
}

/// The training size is the whole number nearest to nine tenths of the
/// total, a half rounding up, and never more than the total.
pub proof fn lemma_train_size_is_nearest(total: nat)
    ensures
        10 * train_size(total) - 5 <= 9 * total < 10 * train_size(total) + 5,
        train_size(total) <= total,
{
}

/// Computes `train_size` without overflow.
pub fn train_len(total: usize) -> (n: usize)
    ensures
        n == train_size(total as nat),
        n <= total,
{
    TRAIN_PARTS * (total / ALL_PARTS) + (TRAIN_PARTS * (total % ALL_PARTS) + ALL_PARTS / 2) / ALL_PARTS
}

/// Cutting a dataset after its first `n` samples puts every sample into
/// exactly one of the two parts and keeps the order: the parts are well
/// formed, their sizes add up, and the first part followed by the second is
/// the dataset again.
pub proof fn lemma_split_partitions(dataset: DatasetView, n: int)
    requires
        dataset.well_formed(),
        0 <= n <= dataset.n_samples(),
    ensures
        dataset.first(n).well_formed(),
        dataset.after(n).well_formed(),
        dataset.first(n).n_samples() == n,
        dataset.after(n).n_samples() == dataset.n_samples() - n,
        dataset.first(n).records + dataset.after(n).records == dataset.records,
        dataset.first(n).targets + dataset.after(n).targets == dataset.targets,
        forall|i: int|
            0 <= i < n ==> dataset.first(n).records[i] == dataset.records[i] && dataset.first(n).targets[i]
                == dataset.targets[i],
        forall|i: int|
            n <= i < dataset.n_samples() ==> dataset.after(n).records[i - n] == dataset.records[i]
                && dataset.after(n).targets[i - n] == dataset.targets[i],
{
    assert(dataset.first(n).records + dataset.after(n).records =~= dataset.records);
    assert(dataset.first(n).targets + dataset.after(n).targets =~= dataset.targets);
}

impl Dataset {
    /// Splits the samples, in their order, into a training part of
    /// `train_size` samples and a test part of the remaining ones.
    pub fn split_train_test(self) -> (parts: (Dataset, Dataset))
        ensures
            parts.0@ == self@.first(train_size(self@.n_samples()) as int),
            parts.1@ == self@.after(train_size(self@.n_samples()) as int),
            parts.0@.n_samples() == train_size(self@.n_samples()),
            parts.1@.n_samples() == self@.n_samples() - train_size(self@.n_samples()),
            parts.0@.records + parts.1@.records == self@.records,
            parts.0@.targets + parts.1@.targets == self@.targets,
    {
        proof {
            use_type_invariant(&self);
        }
        let ghost whole = self@;
        let n = train_len(self.records.len());
        let n_features = self.n_features;
        let mut records = self.records;
        let mut targets = self.targets;
        let test_records = records.split_off(n);
        let test_targets = targets.split_off(n);
        proof {
            lemma_split_partitions(whole, n as int);
            assert(records_view(records@) =~= whole.records.take(n as int));
            assert(records_view(test_records@) =~= whole.records.skip(n as int));
            assert(texts(targets@) =~= whole.targets.take(n as int));
            assert(texts(test_targets@) =~= whole.targets.skip(n as int));
        }
        (
            Dataset { n_features, records, targets },
            Dataset { n_features, records: test_records, targets: test_targets },
        )
    }
}

} // verus!
