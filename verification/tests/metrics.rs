use machine_learning_with_rust::error::DataError;
use machine_learning_with_rust::metrics::{class_index, confusion_matrix};

fn strings(items: &[&str]) -> Vec<String> {
    items.iter().map(|s| s.to_string()).collect()
}

#[test]
fn confusion_matrix_counts_every_pair() {
    let actual = strings(&["a", "b", "a", "c"]);
    let predicted = strings(&["a", "a", "a", "b"]);
    let matrix = confusion_matrix(&predicted, &actual).unwrap();
    assert_eq!(matrix.classes(), &strings(&["a", "b", "c"]));
    assert_eq!(
        matrix.counts(),
        &vec![vec![2, 0, 0], vec![1, 0, 0], vec![0, 1, 0]]
    );
    assert_eq!(matrix.total(), 4);
    assert_eq!(matrix.correct(), 2);
    assert_eq!(matrix.accuracy(), Some(5000));
}

#[test]
fn rows_are_actual_and_columns_are_predicted() {
    let actual = strings(&["cat", "cat", "dog"]);
    let predicted = strings(&["dog", "dog", "dog"]);
    let matrix = confusion_matrix(&predicted, &actual).unwrap();
    assert_eq!(matrix.classes(), &strings(&["cat", "dog"]));
    assert_eq!(matrix.counts(), &vec![vec![0, 2], vec![0, 1]]);
    assert_eq!(matrix.correct(), 1);
}

#[test]
fn predicted_only_classes_are_counted_too() {
    let actual = strings(&["a", "a", "a"]);
    let predicted = strings(&["a", "z", "y"]);
    let matrix = confusion_matrix(&predicted, &actual).unwrap();
    assert_eq!(matrix.classes(), &strings(&["a", "z", "y"]));
    assert_eq!(
        matrix.counts(),
        &vec![vec![1, 1, 1], vec![0, 0, 0], vec![0, 0, 0]]
    );
    assert_eq!(matrix.total(), 3);
    assert_eq!(matrix.correct(), 1);
}

#[test]
fn total_is_the_number_of_examples() {
    let labels = ["x", "y", "z", "w"];
    for n in [0usize, 1, 2, 7, 50, 333] {
        let actual: Vec<String> = (0..n).map(|i| labels[i % 4].to_string()).collect();
        let predicted: Vec<String> = (0..n).map(|i| labels[(i * i + 1) % 3].to_string()).collect();
        let matrix = confusion_matrix(&predicted, &actual).unwrap();
        assert_eq!(matrix.total(), n);
        let sum: usize = matrix.counts().iter().map(|row| row.iter().sum::<usize>()).sum();
        assert_eq!(sum, n);
        let diagonal: usize = (0..matrix.classes().len()).map(|i| matrix.counts()[i][i]).sum();
        assert_eq!(matrix.correct(), diagonal);
        let agree = (0..n).filter(|i| actual[*i] == predicted[*i]).count();
        assert_eq!(matrix.correct(), agree);
    }
}

#[test]
fn perfect_predictions_fill_the_diagonal() {
    let actual = strings(&["good", "bad", "bad", "good", "bad"]);
    let matrix = confusion_matrix(&actual.clone(), &actual).unwrap();
    assert_eq!(matrix.classes(), &strings(&["good", "bad"]));
    assert_eq!(matrix.counts(), &vec![vec![2, 0], vec![0, 3]]);
    assert_eq!(matrix.accuracy(), Some(10000));
}

#[test]
fn nothing_right_gives_zero_accuracy() {
    let actual = strings(&["a", "b"]);
    let predicted = strings(&["b", "a"]);
    let matrix = confusion_matrix(&predicted, &actual).unwrap();
    assert_eq!(matrix.counts(), &vec![vec![0, 1], vec![1, 0]]);
    assert_eq!(matrix.correct(), 0);
    assert_eq!(matrix.accuracy(), Some(0));
}

#[test]
fn empty_evaluation_has_no_accuracy() {
    let matrix = confusion_matrix(&vec![], &vec![]).unwrap();
    assert_eq!(matrix.classes().len(), 0);
    assert_eq!(matrix.counts().len(), 0);
    assert_eq!(matrix.total(), 0);
    assert_eq!(matrix.correct(), 0);
    assert_eq!(matrix.accuracy(), None);
}

#[test]
fn mismatched_lengths_are_rejected() {
    let result = confusion_matrix(&strings(&["a"]), &strings(&["a", "b"]));
    assert_eq!(result, Err(DataError::ShapeMismatch));
    let result = confusion_matrix(&strings(&["a"]), &vec![]);
    assert_eq!(result, Err(DataError::ShapeMismatch));
}

fn accuracy_of(correct: usize, total: usize) -> Option<u32> {
    let actual: Vec<String> = (0..total).map(|_| "yes".to_string()).collect();
    let predicted: Vec<String> = (0..total)
        .map(|i| if i < correct { "yes" } else { "no" }.to_string())
        .collect();
    confusion_matrix(&predicted, &actual).unwrap().accuracy()
}

#[test]
fn accuracy_is_rounded_to_hundredths_of_a_percent() {
    assert_eq!(accuracy_of(2, 3), Some(6667));
    assert_eq!(accuracy_of(1, 3), Some(3333));
    assert_eq!(accuracy_of(1, 8), Some(1250));
    assert_eq!(accuracy_of(14, 15), Some(9333));
    assert_eq!(accuracy_of(1, 7), Some(1429));
    assert_eq!(accuracy_of(7, 7), Some(10000));
    assert_eq!(accuracy_of(0, 7), Some(0));
}

#[test]
fn accuracy_rounds_a_half_up() {
    assert_eq!(accuracy_of(1, 32), Some(313));
    assert_eq!(accuracy_of(3, 32), Some(938));
    assert_eq!(accuracy_of(1, 16), Some(625));
}

#[test]
fn class_index_finds_the_first_position() {
    let classes = strings(&["a", "b", "c", "b"]);
    assert_eq!(class_index(&classes, &"a".to_string()), Some(0));
    assert_eq!(class_index(&classes, &"b".to_string()), Some(1));
    assert_eq!(class_index(&classes, &"c".to_string()), Some(2));
    assert_eq!(class_index(&classes, &"d".to_string()), None);
    assert_eq!(class_index(&vec![], &"a".to_string()), None);
}
