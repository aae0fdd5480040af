//! The fixed inputs of the worked examples and the computations they run.

use crate::dataset::{
    feature_matrix, features_of, into_dataset, label_column_of, lemma_split_partitions, records_view,
    train_size, Dataset,
};
use crate::error::DataError;
use crate::frame::{ColumnView, Table};
use crate::metrics::{
    agreements, confusion_matrix, distinct, lemma_agreements_bound, pair_count, ConfusionMatrix,
};
use crate::people::People;
use crate::text::texts;
use vstd::prelude::*;

verus! {

/// The age above which the table example keeps a row.
pub const AGE_THRESHOLD: i32 = 25;

/// The wine quality above which a wine counts as good.
pub const QUALITY_THRESHOLD: usize = 6;

/// The name of the column that holds the labels of a loaded table.
pub const LABEL_COLUMN: &'static str = "target";

/// The class of a wine of the given quality: `"good"` above
/// `QUALITY_THRESHOLD`, `"bad"` otherwise.
pub open spec fn quality_class(quality: usize) -> Seq<char> {
    if quality > QUALITY_THRESHOLD {
        "good"@
    } else {
        "bad"@
    }
}

/// Computes `quality_class`.
pub fn quality_label(quality: usize) -> (label: &'static str)
    ensures
        label@ == quality_class(quality),
{
    if quality > QUALITY_THRESHOLD {
        "good"
    } else {
        "bad"
    }
}

/// The classes of a vector of wine qualities, one per wine, in order.
pub fn quality_labels(qualities: &Vec<usize>) -> (labels: Vec<String>)
    ensures
        texts(labels@) == qualities@.map_values(|quality: usize| quality_class(quality)),
{
    let mut labels: Vec<String> = Vec::new();
    let mut i: usize = 0;
    while i < qualities.len()
        invariant
            i <= qualities.len(),
            texts(labels@) == qualities@.take(i as int).map_values(|quality: usize| quality_class(quality)),
        decreases qualities.len() - i,
    {
        let ghost before = texts(labels@);
        labels.push(quality_label(qualities[i]).to_owned());
        proof {
            assert(texts(labels@) =~= before.push(quality_class(qualities@[i as int])));
            assert(qualities@.take(i + 1).map_values(|quality: usize| quality_class(quality))
                =~= before.push(quality_class(qualities@[i as int])));
        }
        i += 1;
    }
    assert(qualities@.take(qualities.len() as int) =~= qualities@);
    labels
}

/// Turns the wines of the classification example into its training and its
/// validation dataset: every wine is labelled by `quality_class`, and the
/// wines are split in their order, nine tenths for training.
///
/// Fails with `ShapeMismatch` exactly when the numbers of records and
/// qualities differ or some record does not have `n_features` values.
pub fn wine_datasets(n_features: usize, records: Vec<Vec<u64>>, qualities: &Vec<usize>) -> (parts: Result<
    (Dataset, Dataset),
    DataError,
>)
    ensures
        match parts {
            Ok((train, valid)) => {
                &&& records@.len() == qualities@.len()
                &&& train@.n_features == n_features
                &&& valid@.n_features == n_features
                &&& train@.n_samples() == train_size(records@.len())
                &&& valid@.n_samples() == records@.len() - train_size(records@.len())
                &&& train@.records + valid@.records == records_view(records@)
                &&& train@.targets + valid@.targets == qualities@.map_values(
                    |quality: usize| quality_class(quality),
                )
                &&& train@.well_formed()
                &&& valid@.well_formed()
            },
            Err(e) => {
                &&& e == DataError::ShapeMismatch
                &&& (records@.len() != qualities@.len() || exists|i: int|
                    0 <= i < records@.len() && (#[trigger] records@[i])@.len() != n_features)
            },
        },
{
    let labels = quality_labels(qualities);
    match Dataset::new(n_features, records, labels) {
        Ok(dataset) => {
            proof {
                lemma_split_partitions(dataset@, train_size(dataset@.n_samples()) as int);
            }
            Ok(dataset.split_train_test())
        },
        Err(e) => {
            proof {
                let rows = records_view(records@);
                if records@.len() == qualities@.len() {
                    let i = choose|i: int| 0 <= i < rows.len() && (#[trigger] rows[i]).len() != n_features;
                    assert(rows[i] == records@[i]@);
                }
            }
            Err(e)
        },
    }
}

/// Turns a loaded table into the training and the test dataset of the
/// end-to-end example: the column named `LABEL_COLUMN` gives the targets,
/// the other columns give the features, and the samples are split in their
/// order, nine tenths for training. A feature value that is missing or not
/// readable as a number is zero.
///
/// Fails as `into_dataset` does: with `ColumnNotFound` when the label
/// column is absent, otherwise with `SchemaMismatch` when the label column
/// holds numbers, otherwise with `ShapeMismatch` when a label is missing.
pub fn train_test_datasets(table: Table) -> (parts: Result<(Dataset, Dataset), DataError>)
    ensures
        match parts {
            Ok((train, test)) => {
                &&& table@.has_column(LABEL_COLUMN@)
                &&& label_column_of(table@, LABEL_COLUMN@) matches ColumnView::Text(cells)
                &&& forall|r: int| 0 <= r < cells.len() ==> (#[trigger] cells[r]) is Some
                &&& train@.n_features == table@.width() - 1
                &&& test@.n_features == table@.width() - 1
                &&& train@.n_samples() == train_size(table@.height)
                &&& test@.n_samples() == table@.height - train_size(table@.height)
                &&& train@.records + test@.records == feature_matrix(features_of(table@, LABEL_COLUMN@))
                &&& train@.targets + test@.targets == cells.map_values(|cell: Option<Seq<char>>| cell->Some_0)
                &&& train@.well_formed()
                &&& test@.well_formed()
            },
            Err(DataError::ColumnNotFound) => !table@.has_column(LABEL_COLUMN@),
            Err(DataError::SchemaMismatch) => {
                &&& table@.has_column(LABEL_COLUMN@)
                &&& label_column_of(table@, LABEL_COLUMN@) is Numeric
            },
            Err(DataError::ShapeMismatch) => {
                &&& table@.has_column(LABEL_COLUMN@)
                &&& label_column_of(table@, LABEL_COLUMN@) matches ColumnView::Text(cells)
                &&& exists|r: int| 0 <= r < cells.len() && (#[trigger] cells[r]) is None
            },
            Err(_) => false,
        },
{
    match into_dataset(table, LABEL_COLUMN) {
        Ok(dataset) => {
            proof {
                use_type_invariant(&dataset);
                lemma_split_partitions(dataset@, train_size(dataset@.n_samples()) as int);
            }
            let parts = dataset.split_train_test();
            Ok(parts)
        },
        Err(e) => Err(e),
    }
}

/// Compares the labels a model predicted for the test dataset with the
/// dataset's own targets. Every test sample is counted in exactly one place
/// of the matrix, so its total is the size of the test dataset.
///
/// Fails with `ShapeMismatch` exactly when the number of predictions
/// differs from the number of test samples.
pub fn evaluate(predicted: &Vec<String>, test: &Dataset) -> (matrix: Result<ConfusionMatrix, DataError>)
    ensures
        match matrix {
            Ok(m) => {
                &&& predicted@.len() == test@.n_samples()
                &&& m@.well_formed()
                &&& m@.classes == distinct(test@.targets + texts(predicted@))
                &&& forall|i: int, j: int|
                    0 <= i < m@.classes.len() && 0 <= j < m@.classes.len() ==> #[trigger] m@.counts[i][j]
                        == pair_count(test@.targets, texts(predicted@), m@.classes[i], m@.classes[j])
                &&& m@.total() == test@.n_samples()
                &&& m@.correct() == agreements(test@.targets, texts(predicted@))
                &&& m@.correct() <= m@.total()
            },
            Err(e) => e == DataError::ShapeMismatch && predicted@.len() != test@.n_samples(),
        },
{
    proof {
        use_type_invariant(test);
        lemma_agreements_bound(test@.targets, texts(predicted@));
    }
    confusion_matrix(predicted, test.targets())
}

/// The table of the filter example: Alice is 25, Bob is 30, Charlie is 22.
pub fn example_people() -> (table: People)
    ensures
        table@ == seq![(25i32, "Alice"@), (30i32, "Bob"@), (22i32, "Charlie"@)],
{
    let mut ages: Vec<i32> = Vec::new();
    ages.push(25);
    ages.push(30);
    ages.push(22);
    let mut names: Vec<String> = Vec::new();
    names.push("Alice".to_owned());
    names.push("Bob".to_owned());
    names.push("Charlie".to_owned());
    let table = People::new(ages, names).unwrap();
    assert(table@ =~= seq![(25i32, "Alice"@), (30i32, "Bob"@), (22i32, "Charlie"@)]);
    table
}

/// Builds the example table and keeps the rows with an age above
/// `AGE_THRESHOLD`: only Bob, who is 30, remains.
pub fn run_polar_example() -> (filtered: People)
    ensures
        filtered@ == seq![(30i32, "Bob"@)],
{
    let table = example_people();
    let filtered = table.older_than(AGE_THRESHOLD);
    proof {
        let keep = |row: (i32, Seq<char>)| row.0 > AGE_THRESHOLD;
        let rows = table@;
        reveal_with_fuel(Seq::filter, 4);
        assert(rows.drop_last() =~= seq![(25i32, "Alice"@), (30i32, "Bob"@)]);
        assert(rows.drop_last().drop_last() =~= seq![(25i32, "Alice"@)]);
        assert(rows.drop_last().drop_last().drop_last() =~= Seq::<(i32, Seq<char>)>::empty());
        assert(rows.filter(keep) =~= seq![(30i32, "Bob"@)]);
    }
    filtered
}

} // verus!
