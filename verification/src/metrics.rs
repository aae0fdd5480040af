//! The confusion matrix of a classifier's predictions and the accuracy read
//! from it, counted exactly.

use crate::text::texts;
use crate::error::DataError;
use vstd::prelude::*;

verus! {

/// The distinct labels of a sequence, in the order of their first
/// occurrence.
pub open spec fn distinct(labels: Seq<Seq<char>>) -> Seq<Seq<char>>
    decreases labels.len(),
{
    if labels.len() == 0 {
        Seq::empty()
    } else {
        let seen = distinct(labels.drop_last());
        if seen.contains(labels.last()) {
            seen
        } else {
            seen.push(labels.last())
        }
    }
}

/// How many of the first `actual.len()` examples have the actual label
/// `a` and the predicted label `p`.
pub open spec fn pair_count(
    actual: Seq<Seq<char>>,
    predicted: Seq<Seq<char>>,
    a: Seq<char>,
    p: Seq<char>,
) -> nat
    recommends
        actual.len() <= predicted.len(),
    decreases actual.len(),
{
    if actual.len() == 0 {
        0
    } else {
        let before = pair_count(actual.drop_last(), predicted, a, p);
        if actual.last() == a && predicted[actual.len() - 1] == p {
            before + 1
        } else {
            before
        }
    }
}

/// How many of the first `actual.len()` examples were predicted correctly.
pub open spec fn agreements(actual: Seq<Seq<char>>, predicted: Seq<Seq<char>>) -> nat
    recommends
        actual.len() <= predicted.len(),
    decreases actual.len(),
{
    if actual.len() == 0 {
        0
    } else {
        let before = agreements(actual.drop_last(), predicted);
        if actual.last() == predicted[actual.len() - 1] {
            before + 1
        } else {
            before
        }
    }
}

/// The sum of the counts of one row.
pub open spec fn row_sum(row: Seq<usize>) -> nat
    decreases row.len(),
{
    if row.len() == 0 {
        0
    } else {
        row_sum(row.drop_last()) + row.last() as nat
    }
}

/// The sum of all counts of a matrix.
pub open spec fn matrix_total(counts: Seq<Seq<usize>>) -> nat
    decreases counts.len(),
{
    if counts.len() == 0 {
        0
    } else {
        matrix_total(counts.drop_last()) + row_sum(counts.last())
    }
}

/// The sum of the first `k` counts on the diagonal of a matrix.
pub open spec fn diagonal_sum(counts: Seq<Seq<usize>>, k: nat) -> nat
    recommends
        k <= counts.len(),
    decreases k,
{
    if k == 0 {
        0
    } else {
        diagonal_sum(counts, (k - 1) as nat) + counts[k - 1][k - 1] as nat
    }
}

/// The contents of a vector of rows of counts.
pub open spec fn counts_view(counts: Seq<Vec<usize>>) -> Seq<Seq<usize>> {
    counts.map_values(|row: Vec<usize>| row@)
}

/// What a confusion matrix holds: the classes, and for each pair of an
/// actual class (the row) and a predicted class (the column) the number of
/// examples.
pub struct ConfusionView {
    pub classes: Seq<Seq<char>>,
    pub counts: Seq<Seq<usize>>,
}

impl ConfusionView {
    /// One row and one column per class, and no class twice.
    pub open spec fn well_formed(self) -> bool {
        &&& self.counts.len() == self.classes.len()
        &&& forall|i: int| 0 <= i < self.counts.len() ==> (#[trigger] self.counts[i]).len() == self.classes.len()
        &&& self.classes.no_duplicates()
    }

    /// The number of examples counted.
    pub open spec fn total(self) -> nat {
        matrix_total(self.counts)
    }

    /// The number of examples counted on the diagonal: those predicted
    /// correctly.
    pub open spec fn correct(self) -> nat {
        diagonal_sum(self.counts, self.classes.len())
    }
}

/// The accuracy in hundredths of a percent: `correct` out of `total`, times
/// ten thousand, rounded to the nearest whole number, a half rounding up.
pub open spec fn accuracy_of(correct: nat, total: nat) -> nat
    recommends
        0 < total,
        correct <= total,
{
    ((20000 * correct + total) as int / (2 * total) as int) as nat
}

/// A confusion matrix: for each pair of an actual and a predicted class the
/// number of examples, with the number of all examples and of the correctly
/// predicted ones.
#[derive(Debug, PartialEq, Eq)]
pub struct ConfusionMatrix {
    classes: Vec<String>,
    counts: Vec<Vec<usize>>,
    total: usize,
    correct: usize,
}

impl View for ConfusionMatrix {
    type V = ConfusionView;

    closed spec fn view(&self) -> ConfusionView {
        ConfusionView { classes: texts(self.classes@), counts: counts_view(self.counts@) }
    }
}

impl ConfusionMatrix {
    /// The matrix is square over its classes, and the two stored numbers are
    /// the sums they stand for.
    #[verifier::type_invariant]
    spec fn inv(&self) -> bool {
        &&& self@.well_formed()
        &&& self.total == self@.total()
        &&& self.correct == self@.correct()
        &&& self.correct <= self.total
    }

    /// The classes, in the order of the rows and columns.
    pub fn classes(&self) -> (classes: &Vec<String>)
        ensures
            texts(classes@) == self@.classes,
    {
        &self.classes
    }

    /// The counts: one row per actual class, one column per predicted class.
    pub fn counts(&self) -> (counts: &Vec<Vec<usize>>)
        ensures
            counts_view(counts@) == self@.counts,
    {
        &self.counts
    }

    /// The number of examples counted in the matrix.
    pub fn total(&self) -> (n: usize)
        ensures
            n == self@.total(),
    {
        proof {
            use_type_invariant(self);
        }
        self.total
    }

    /// The number of examples on the diagonal: those predicted correctly.
    pub fn correct(&self) -> (n: usize)
        ensures
            n == self@.correct(),
            n <= self@.total(),
    {
        proof {
            use_type_invariant(self);
        }
        self.correct
    }

    /// The accuracy in hundredths of a percent, or `None` when the matrix
    /// counts no example.
    pub fn accuracy(&self) -> (hundredths: Option<u32>)
        ensures
            match hundredths {
                Some(h) => self@.total() > 0 && h == accuracy_of(self@.correct(), self@.total()) && h <= 10000,
                None => self@.total() == 0,
            },
    {
        proof {
            use_type_invariant(self);
        }
        if self.total == 0 {
            None
        } else {
            let correct = self.correct as u128;
            let total = self.total as u128;
            proof {
                lemma_accuracy_is_nearest(self.correct as nat, self.total as nat);
            }
            Some(((20000 * correct + total) / (2 * total)) as u32)
        }
    }
}

/// The first position of `label` among `classes`, or `None` when it is not
/// among them.
pub fn class_index(classes: &Vec<String>, label: &String) -> (found: Option<usize>)
    ensures
        match found {
            Some(i) => {
                &&& i < classes@.len()
                &&& texts(classes@)[i as int] == label@
                &&& forall|k: int| 0 <= k < i ==> texts(classes@)[k] != label@
            },
            None => !texts(classes@).contains(label@),
        },
{
    let ghost names = texts(classes@);
    let mut i: usize = 0;
    while i < classes.len()
        invariant
            i <= classes.len(),
            names == texts(classes@),
            forall|k: int| 0 <= k < i ==> names[k] != label@,
        decreases classes.len() - i,
    {
        if classes[i] == *label {
            assert(names[i as int] == label@);
            return Some(i);
        }
        i += 1;
    }
    None
}

/// Appends to `classes` the labels of `labels` that are not yet among them,
/// in the order of their first occurrence.
fn add_classes(classes: &mut Vec<String>, labels: &Vec<String>, Ghost(before): Ghost<Seq<Seq<char>>>)
    requires
        texts(old(classes)@) == distinct(before),
    ensures
        texts(final(classes)@) == distinct(before + texts(labels@)),
{
    let ghost all = texts(labels@);
    let mut i: usize = 0;
    assert(before + all.take(0) =~= before);
    while i < labels.len()
        invariant
            i <= labels.len(),
            all == texts(labels@),
            texts(classes@) == distinct(before + all.take(i as int)),
        decreases labels.len() - i,
    {
        proof {
            let longer = before + all.take(i + 1);
            assert(longer.drop_last() =~= before + all.take(i as int));
            assert(longer.last() == labels@[i as int]@);
        }
        if class_index(classes, &labels[i]).is_none() {
            let ghost seen = texts(classes@);
            classes.push(labels[i].clone());
            assert(texts(classes@) =~= seen.push(labels@[i as int]@));
        }
        i += 1;
    }
    assert(all.take(labels.len() as int) =~= all);
}

/// A square matrix of zeros with `k` rows.
fn zero_counts(k: usize) -> (counts: Vec<Vec<usize>>)
    ensures
        counts@.len() == k,
        forall|r: int| 0 <= r < k ==> (#[trigger] counts@[r])@.len() == k,
        forall|r: int, c: int| 0 <= r < k && 0 <= c < k ==> #[trigger] counts@[r]@[c] == 0,
{
    let mut counts: Vec<Vec<usize>> = Vec::new();
    let mut r: usize = 0;
    while r < k
        invariant
            r <= k,
            counts@.len() == r,
            forall|i: int| 0 <= i < r ==> (#[trigger] counts@[i])@.len() == k,
            forall|i: int, c: int| 0 <= i < r && 0 <= c < k ==> #[trigger] counts@[i]@[c] == 0,
        decreases k - r,
    {
        let mut row: Vec<usize> = Vec::new();
        let mut c: usize = 0;
        while c < k
            invariant
                c <= k,
                row@.len() == c,
                forall|i: int| 0 <= i < c ==> #[trigger] row@[i] == 0,
            decreases k - c,
        {
            row.push(0);
            c += 1;
        }
        counts.push(row);
        r += 1;
    }
    counts
}

/// Counts, for every pair of an actual and a predicted class, the examples
/// with that pair of labels. Example `i` has the actual label `actual[i]`
/// and the predicted label `predicted[i]`. The classes are the distinct
/// labels, those of `actual` first, so every example is counted in exactly
/// one place and the counts add up to the number of examples.
///
/// Fails with `ShapeMismatch` exactly when the two vectors differ in length.
pub fn confusion_matrix(predicted: &Vec<String>, actual: &Vec<String>) -> (matrix: Result<
    ConfusionMatrix,
    DataError,
>)
    ensures
        match matrix {
            Ok(m) => {
                &&& predicted@.len() == actual@.len()
                &&& m@.well_formed()
                &&& m@.classes == distinct(texts(actual@) + texts(predicted@))
                &&& forall|i: int, j: int|
                    0 <= i < m@.classes.len() && 0 <= j < m@.classes.len() ==> #[trigger] m@.counts[i][j]
                        == pair_count(texts(actual@), texts(predicted@), m@.classes[i], m@.classes[j])
                &&& m@.total() == actual@.len()
                &&& m@.correct() == agreements(texts(actual@), texts(predicted@))
            },
            Err(e) => e == DataError::ShapeMismatch && predicted@.len() != actual@.len(),
        },
{
    if predicted.len() != actual.len() {
        return Err(DataError::ShapeMismatch);
    }
    let ghost truth = texts(actual@);
    let ghost guess = texts(predicted@);
    let mut classes: Vec<String> = Vec::new();
    assert(texts(classes@) =~= distinct(Seq::empty()));
    add_classes(&mut classes, actual, Ghost(Seq::empty()));
    assert(Seq::<Seq<char>>::empty() + truth =~= truth);
    add_classes(&mut classes, predicted, Ghost(truth));
    let ghost names = texts(classes@);
    proof {
        lemma_distinct(truth + guess);
    }
    let k = classes.len();
    let mut counts = zero_counts(k);
    let mut correct: usize = 0;
    let mut n: usize = 0;
    proof {
        lemma_zero_matrix(counts_view(counts@), k as nat);
    }
    while n < actual.len()
        invariant
            n <= actual@.len() == predicted@.len(),
            truth == texts(actual@),
            guess == texts(predicted@),
            names == texts(classes@),
            names == distinct(truth + guess),
            names.no_duplicates(),
            forall|i: int| 0 <= i < (truth + guess).len() ==> names.contains(#[trigger] (truth + guess)[i]),
            k == classes@.len() == counts@.len(),
            forall|r: int| 0 <= r < k ==> (#[trigger] counts@[r])@.len() == k,
            forall|i: int, j: int|
                0 <= i < k && 0 <= j < k ==> #[trigger] counts@[i]@[j] == pair_count(
                    truth.take(n as int),
                    guess,
                    names[i],
                    names[j],
                ),
            matrix_total(counts_view(counts@)) == n,
            diagonal_sum(counts_view(counts@), k as nat) == correct,
            correct == agreements(truth.take(n as int), guess),
            correct <= n,
        decreases actual.len() - n,
    {
        let ghost seen = truth.take(n as int);
        let ghost next = truth.take(n + 1);
        let ghost old_counts = counts_view(counts@);
        proof {
            assert forall|a: int, b: int| 0 <= a < k && 0 <= b < k implies #[trigger] old_counts[a][b]
                == pair_count(seen, guess, names[a], names[b]) by {
                assert(old_counts[a] == counts@[a]@);
            }
            assert(next.drop_last() =~= seen);
            assert(next.last() == truth[n as int]);
            assert((truth + guess)[n as int] == truth[n as int]);
            assert((truth + guess)[truth.len() + n] == guess[n as int]);
            assert(names.contains(truth[n as int]));
            assert(names.contains(guess[n as int]));
        }
        let i = class_index(&classes, &actual[n]).unwrap();
        let j = class_index(&classes, &predicted[n]).unwrap();
        proof {
            assert(old_counts[i as int] == counts@[i as int]@);
            lemma_row_bump(old_counts[i as int], j as int);
            lemma_total_replace(
                old_counts,
                i as int,
                old_counts[i as int].update(j as int, (old_counts[i as int][j as int] + 1) as usize),
            );
            assert forall|r: int| 0 <= r < old_counts.len() implies r < (#[trigger] old_counts[r]).len() by {
                assert(old_counts[r] == counts@[r]@);
            }
            lemma_diagonal_bump(old_counts, i as int, j as int, k as nat);
        }
        let count = counts[i][j];
        counts[i][j] = count + 1;
        if i == j {
            correct += 1;
        }
        n += 1;
        proof {
            assert(counts_view(counts@) =~= old_counts.update(
                i as int,
                old_counts[i as int].update(j as int, (count + 1) as usize),
            ));
            assert forall|a: int, b: int| 0 <= a < k && 0 <= b < k implies #[trigger] counts@[a]@[b]
                == pair_count(next, guess, names[a], names[b]) by {
                assert(counts@[a]@ == counts_view(counts@)[a]);
                assert(old_counts[a][b] == pair_count(seen, guess, names[a], names[b]));
                assert(names[a] == truth[n - 1] <==> a == i);
                assert(names[b] == guess[n - 1] <==> b == j);
            }
        }
    }
    assert(truth.take(actual.len() as int) =~= truth);
    Ok(ConfusionMatrix { classes, counts, total: n, correct })
}

/// The accuracy is the whole number of hundredths of a percent nearest to
/// the exact ratio, a half rounding up, and at most ten thousand.
pub proof fn lemma_accuracy_is_nearest(correct: nat, total: nat)
    requires
        0 < total,
        correct <= total,
    ensures
        2 * total * accuracy_of(correct, total) - total <= 20000 * correct < 2 * total * accuracy_of(
            correct,
            total,
        ) + total,
        accuracy_of(correct, total) <= 10000,
{
    let numerator = (20000 * correct + total) as int;
    let divisor = (2 * total) as int;
    let h = numerator / divisor;
    vstd::arithmetic::div_mod::lemma_fundamental_div_mod(numerator, divisor);
    vstd::arithmetic::div_mod::lemma_mod_bound(numerator, divisor);
    assert(numerator == divisor * h + numerator % divisor);
    assert(0 <= numerator % divisor < divisor);
    assert(h >= 0) by (nonlinear_arith)
        requires
            numerator >= 0,
            divisor > 0,
            numerator == divisor * h + numerator % divisor,
            0 <= numerator % divisor < divisor,
    ;
    assert(h <= 10000) by (nonlinear_arith)
        requires
            numerator <= 20001 * total,
            divisor == 2 * total,
            total > 0,
            numerator == divisor * h + numerator % divisor,
            0 <= numerator % divisor,
    ;
    assert(divisor * h == 2 * total * h) by (nonlinear_arith)
        requires
            divisor == 2 * total,
    ;
}

/// The distinct labels hold every label of the sequence, nothing else, and
/// nothing twice.
pub proof fn lemma_distinct(labels: Seq<Seq<char>>)
    ensures
        distinct(labels).no_duplicates(),
        distinct(labels).len() <= labels.len(),
        forall|i: int| 0 <= i < labels.len() ==> distinct(labels).contains(#[trigger] labels[i]),
        forall|c: Seq<char>| #[trigger] distinct(labels).contains(c) ==> labels.contains(c),
    decreases labels.len(),
{
    if labels.len() > 0 {
        let front = labels.drop_last();
        let seen = distinct(front);
        lemma_distinct(front);
        assert forall|i: int| 0 <= i < labels.len() implies distinct(labels).contains(
            #[trigger] labels[i],
        ) by {
            if i < front.len() {
                assert(seen.contains(front[i]));
                let k = choose|k: int| 0 <= k < seen.len() && seen[k] == front[i];
                assert(distinct(labels)[k] == labels[i]);
            } else if seen.contains(labels.last()) {
            } else {
                assert(distinct(labels)[seen.len() as int] == labels[i]);
            }
        }
        assert forall|c: Seq<char>| #[trigger] distinct(labels).contains(c) implies labels.contains(
            c,
        ) by {
            let k = choose|k: int| 0 <= k < distinct(labels).len() && distinct(labels)[k] == c;
            if k < seen.len() {
                assert(seen.contains(c));
                let i = choose|i: int| 0 <= i < front.len() && front[i] == c;
                assert(labels[i] == c);
            } else {
                assert(labels[labels.len() - 1] == c);
            }
        }
    }
}

/// No count of a row exceeds the sum of the row, and raising one count by
/// one raises the sum by one.
proof fn lemma_row_bump(row: Seq<usize>, j: int)
    requires
        0 <= j < row.len(),
    ensures
        row[j] <= row_sum(row),
        row_sum(row.update(j, (row[j] + 1) as usize)) == row_sum(row) - row[j] + ((row[j] + 1) as usize),
    decreases row.len(),
{
    let raised = row.update(j, (row[j] + 1) as usize);
    if j == row.len() - 1 {
        assert(raised.drop_last() =~= row.drop_last());
    } else {
        lemma_row_bump(row.drop_last(), j);
        assert(raised.drop_last() =~= row.drop_last().update(j, (row[j] + 1) as usize));
    }
}

/// No row sum exceeds the total of the matrix, and replacing one row
/// changes the total by the difference of the row sums.
proof fn lemma_total_replace(counts: Seq<Seq<usize>>, i: int, row: Seq<usize>)
    requires
        0 <= i < counts.len(),
    ensures
        row_sum(counts[i]) <= matrix_total(counts),
        matrix_total(counts.update(i, row)) == matrix_total(counts) - row_sum(counts[i]) + row_sum(row),
    decreases counts.len(),
{
    let replaced = counts.update(i, row);
    if i == counts.len() - 1 {
        assert(replaced.drop_last() =~= counts.drop_last());
    } else {
        lemma_total_replace(counts.drop_last(), i, row);
        assert(replaced.drop_last() =~= counts.drop_last().update(i, row));
    }
}

/// Raising the count at row `i`, column `j` by one raises the sum of the
/// first `k` diagonal counts by one if the place is among them, and leaves
/// it unchanged otherwise.
proof fn lemma_diagonal_bump(counts: Seq<Seq<usize>>, i: int, j: int, k: nat)
    requires
        0 <= i < counts.len(),
        0 <= j < counts[i].len(),
        counts[i][j] < usize::MAX,
        k <= counts.len(),
        forall|r: int| 0 <= r < counts.len() ==> r < (#[trigger] counts[r]).len(),
    ensures
        diagonal_sum(counts.update(i, counts[i].update(j, (counts[i][j] + 1) as usize)), k)
            == diagonal_sum(counts, k) + (if i == j && i < k {
            1nat
        } else {
            0nat
        }),
    decreases k,
{
    if k > 0 {
        lemma_diagonal_bump(counts, i, j, (k - 1) as nat);
    }
}

/// A matrix of zeros has total zero and diagonal sum zero.
proof fn lemma_zero_matrix(counts: Seq<Seq<usize>>, k: nat)
    requires
        k <= counts.len(),
        forall|r: int, c: int|
            0 <= r < counts.len() && 0 <= c < counts[r].len() ==> #[trigger] counts[r][c] == 0,
        forall|r: int| 0 <= r < counts.len() ==> r < (#[trigger] counts[r]).len(),
    ensures
        matrix_total(counts) == 0,
        diagonal_sum(counts, k) == 0,
    decreases counts.len(), k,
{
    if k > 0 {
        lemma_zero_matrix(counts, (k - 1) as nat);
        assert(counts[k - 1][k - 1] == 0);
    }
    if counts.len() > 0 {
        let front = counts.drop_last();
        assert forall|r: int, c: int| 0 <= r < front.len() && 0 <= c < front[r].len() implies #[trigger] front[r][c]
            == 0 by {
            assert(counts[r][c] == 0);
        }
        assert forall|r: int| 0 <= r < front.len() implies r < (#[trigger] front[r]).len() by {
            assert(front[r] == counts[r]);
        }
        lemma_zero_matrix(front, 0);
        lemma_zero_row(counts.last());
    }
}

/// A row of zeros has sum zero.
proof fn lemma_zero_row(row: Seq<usize>)
    requires
        forall|c: int| 0 <= c < row.len() ==> #[trigger] row[c] == 0,
    ensures
        row_sum(row) == 0,
    decreases row.len(),
{
    if row.len() > 0 {
        lemma_zero_row(row.drop_last());
    }
}

/// There are never more agreements than examples.
pub proof fn lemma_agreements_bound(actual: Seq<Seq<char>>, predicted: Seq<Seq<char>>)
    ensures
        agreements(actual, predicted) <= actual.len(),
    decreases actual.len(),
{
    if actual.len() > 0 {
        lemma_agreements_bound(actual.drop_last(), predicted);
    }
}

} // verus!
