use machine_learning_with_rust::error::DataError;
use machine_learning_with_rust::frame::{Column, Table};
use machine_learning_with_rust::utils::{
    evaluate, quality_label, quality_labels, train_test_datasets, wine_datasets, LABEL_COLUMN,
    QUALITY_THRESHOLD,
};

fn strings(items: &[&str]) -> Vec<String> {
    items.iter().map(|s| s.to_string()).collect()
}

fn measured(rows: usize, label: &str) -> Table {
    let width: Vec<Option<u64>> = (0..rows).map(|i| Some((i as f64 * 0.5).to_bits())).collect();
    let length: Vec<Option<u64>> = (0..rows)
        .map(|i| if i % 7 == 3 { None } else { Some((i as f64 + 0.25).to_bits()) })
        .collect();
    let kinds = ["setosa", "versicolor", "virginica"];
    let target: Vec<Option<String>> = (0..rows).map(|i| Some(kinds[i % 3].to_string())).collect();
    Table::new(
        strings(&["width", "length", label]),
        vec![Column::Numeric(width), Column::Numeric(length), Column::Text(target)],
    )
    .unwrap()
}

#[test]
fn wines_above_six_are_good() {
    assert_eq!(QUALITY_THRESHOLD, 6);
    assert_eq!(quality_label(7), "good");
    assert_eq!(quality_label(10), "good");
    assert_eq!(quality_label(usize::MAX), "good");
    assert_eq!(quality_label(6), "bad");
    assert_eq!(quality_label(5), "bad");
    assert_eq!(quality_label(0), "bad");
}

#[test]
fn quality_labels_relabels_every_wine() {
    assert_eq!(
        quality_labels(&vec![5, 7, 6, 8, 3]),
        strings(&["bad", "good", "bad", "good", "bad"])
    );
    assert_eq!(quality_labels(&vec![]), Vec::<String>::new());
}

#[test]
fn label_column_is_named_target() {
    assert_eq!(LABEL_COLUMN, "target");
}

#[test]
fn end_to_end_split_of_a_loaded_table() {
    let (train, test) = train_test_datasets(measured(150, "target")).unwrap();
    assert_eq!(train.nsamples(), 135);
    assert_eq!(test.nsamples(), 15);
    assert_eq!(train.nfeatures(), 2);
    assert_eq!(test.nfeatures(), 2);
    assert_eq!(train.targets()[0], "setosa");
    assert_eq!(train.targets()[134], "virginica");
    assert_eq!(test.targets()[0], "setosa");
    assert_eq!(train.records()[2], vec![1.0f64.to_bits(), 2.25f64.to_bits()]);
    assert_eq!(train.records()[3], vec![1.5f64.to_bits(), 0]);
    assert_eq!(test.records()[0], vec![67.5f64.to_bits(), 135.25f64.to_bits()]);
    assert_eq!(test.records()[14], vec![74.5f64.to_bits(), 149.25f64.to_bits()]);
}

#[test]
fn end_to_end_fails_without_the_label_column() {
    assert_eq!(
        train_test_datasets(measured(30, "species")),
        Err(DataError::ColumnNotFound)
    );
}

#[test]
fn end_to_end_fails_on_a_missing_label() {
    let table = Table::new(
        strings(&["x", "target"]),
        vec![
            Column::Numeric(vec![Some(1), Some(2)]),
            Column::Text(vec![None, Some("a".to_string())]),
        ],
    )
    .unwrap();
    assert_eq!(train_test_datasets(table), Err(DataError::ShapeMismatch));
}

#[test]
fn end_to_end_reads_text_features_as_zero() {
    let table = Table::new(
        strings(&["x", "y", "target"]),
        vec![
            Column::Text(vec![Some("abc".to_string()), None]),
            Column::Numeric(vec![Some(2.5f64.to_bits()), None]),
            Column::Text(vec![Some("a".to_string()), Some("b".to_string())]),
        ],
    )
    .unwrap();
    let (train, test) = train_test_datasets(table).unwrap();
    assert_eq!((train.nsamples(), test.nsamples()), (2, 0));
    assert_eq!(train.records(), &vec![vec![0u64, 2.5f64.to_bits()], vec![0, 0]]);
    assert_eq!(train.targets(), &strings(&["a", "b"]));
}

#[test]
fn end_to_end_fails_on_numeric_labels() {
    let table = Table::new(
        strings(&["x", "target"]),
        vec![Column::Numeric(vec![Some(1)]), Column::Numeric(vec![Some(2)])],
    )
    .unwrap();
    assert_eq!(train_test_datasets(table), Err(DataError::SchemaMismatch));
}

#[test]
fn evaluation_counts_every_test_sample() {
    let (_, test) = train_test_datasets(measured(150, "target")).unwrap();
    let predicted: Vec<String> = (0..15)
        .map(|i| if i % 2 == 0 { "setosa" } else { "virginica" }.to_string())
        .collect();
    let matrix = evaluate(&predicted, &test).unwrap();
    assert_eq!(matrix.total(), test.nsamples());
    assert_eq!(matrix.classes(), &strings(&["setosa", "versicolor", "virginica"]));
    assert_eq!(
        matrix.counts(),
        &vec![vec![3, 0, 2], vec![2, 0, 3], vec![3, 0, 2]]
    );
    assert_eq!(matrix.correct(), 5);
    assert_eq!(matrix.accuracy(), Some(3333));
}

#[test]
fn evaluation_needs_one_prediction_per_sample() {
    let (_, test) = train_test_datasets(measured(150, "target")).unwrap();
    assert_eq!(
        evaluate(&strings(&["setosa"]), &test),
        Err(DataError::ShapeMismatch)
    );
}

#[test]
fn wines_are_relabelled_and_split() {
    let qualities: Vec<usize> = (0..20).map(|i| 3 + i % 6).collect();
    let records: Vec<Vec<u64>> = (0..20u64).map(|i| vec![i, i + 100, i + 200]).collect();
    let (train, valid) = wine_datasets(3, records, &qualities).unwrap();
    assert_eq!(train.nsamples(), 18);
    assert_eq!(valid.nsamples(), 2);
    assert_eq!(train.nfeatures(), 3);
    assert_eq!(
        &train.targets()[..6],
        &strings(&["bad", "bad", "bad", "bad", "good", "good"])[..]
    );
    assert_eq!(train.records()[17], vec![17, 117, 217]);
    assert_eq!(valid.records(), &vec![vec![18u64, 118, 218], vec![19, 119, 219]]);
    assert_eq!(valid.targets(), &strings(&["bad", "bad"]));
}

#[test]
fn wines_need_one_quality_per_record() {
    assert_eq!(
        wine_datasets(1, vec![vec![1], vec![2]], &vec![5]),
        Err(DataError::ShapeMismatch)
    );
    assert_eq!(
        wine_datasets(2, vec![vec![1, 2], vec![3]], &vec![5, 8]),
        Err(DataError::ShapeMismatch)
    );
}

#[test]
fn bundled_wines_split_like_the_example() {
    let wines = linfa_datasets::winequality();
    let qualities: Vec<usize> = wines.targets().iter().copied().collect();
    let records: Vec<Vec<u64>> = wines
        .records()
        .rows()
        .into_iter()
        .map(|row| row.iter().map(|value| value.to_bits()).collect())
        .collect();
    assert_eq!(qualities.len(), 1599);
    let good = qualities.iter().filter(|q| **q > 6).count();
    let (train, valid) = wine_datasets(11, records, &qualities).unwrap();
    assert_eq!(train.nsamples(), 1439);
    assert_eq!(valid.nsamples(), 160);
    assert_eq!(train.nfeatures(), 11);
    let labelled_good = train
        .targets()
        .iter()
        .chain(valid.targets())
        .filter(|label| label.as_str() == "good")
        .count();
    assert_eq!(labelled_good, good);
    assert_eq!(f64::from_bits(train.records()[0][0]), wines.records()[[0, 0]]);
    assert_eq!(f64::from_bits(valid.records()[159][10]), wines.records()[[1598, 10]]);
}
