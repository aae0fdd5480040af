//! A table of people with an age and a name column.

use crate::engine::{filter_rows, greater_than, select, MAX_ROWS};
use crate::error::DataError;
use crate::text::texts;
use vstd::prelude::*;

verus! {

/// A table with one row per person: an age and a name. It has at most
/// `MAX_ROWS` rows, so that the dataframe engine can take it.
#[derive(Debug, PartialEq, Eq)]
pub struct People {
    ages: Vec<i32>,
    names: Vec<String>,
}

/// The rows of a table given by its two columns.
pub open spec fn rows_of(ages: Seq<i32>, names: Seq<Seq<char>>) -> Seq<(i32, Seq<char>)>
    recommends
        ages.len() == names.len(),
{
    Seq::new(ages.len(), |i: int| (ages[i], names[i]))
}

impl View for People {
    type V = Seq<(i32, Seq<char>)>;

    closed spec fn view(&self) -> Seq<(i32, Seq<char>)> {
        rows_of(self.ages@, texts(self.names@))
    }
}

impl People {
    #[verifier::type_invariant]
    spec fn well_formed(&self) -> bool {
        &&& self.ages@.len() == self.names@.len()
        &&& self.ages@.len() <= MAX_ROWS
    }

    /// Builds the table from its two columns.
    ///
    /// Fails with `ShapeMismatch` when the columns differ in length,
    /// otherwise with `TooLarge` when they hold more than `MAX_ROWS` rows.
    pub fn new(ages: Vec<i32>, names: Vec<String>) -> (table: Result<People, DataError>)
        ensures
            match table {
                Ok(t) => {
                    &&& ages@.len() == names@.len()
                    &&& ages@.len() <= MAX_ROWS
                    &&& t@ == rows_of(ages@, texts(names@))
                },
                Err(DataError::ShapeMismatch) => ages@.len() != names@.len(),
                Err(DataError::TooLarge) => ages@.len() == names@.len() && ages@.len() > MAX_ROWS,
                Err(_) => false,
            },
    {
        if ages.len() != names.len() {
            Err(DataError::ShapeMismatch)
        } else if ages.len() > MAX_ROWS {
            Err(DataError::TooLarge)
        } else {
            Ok(People { ages, names })
        }
    }

    /// The table without rows.
    pub fn empty() -> (table: People)
        ensures
            table@ == Seq::<(i32, Seq<char>)>::empty(),
    {
        let table = People { ages: Vec::new(), names: Vec::new() };
        assert(table@ =~= Seq::<(i32, Seq<char>)>::empty());
        table
    }

    /// The number of rows.
    pub fn len(&self) -> (n: usize)
        ensures
            n == self@.len(),
            n <= MAX_ROWS,
    {
        proof {
            use_type_invariant(self);
        }
        self.ages.len()
    }

    /// The age column.
    pub fn ages(&self) -> (ages: &Vec<i32>)
        ensures
            ages@ == self@.map_values(|row: (i32, Seq<char>)| row.0),
    {
        proof {
            use_type_invariant(self);
            assert(self.ages@ =~= self@.map_values(|row: (i32, Seq<char>)| row.0));
        }
        &self.ages
    }

    /// The name column.
    pub fn names(&self) -> (names: &Vec<String>)
        ensures
            texts(names@) == self@.map_values(|row: (i32, Seq<char>)| row.1),
    {
        proof {
            use_type_invariant(self);
            assert(texts(self.names@) =~= self@.map_values(|row: (i32, Seq<char>)| row.1));
        }
        &self.names
    }

    /// The rows whose age is greater than `threshold`, in the order of the
    /// table. The comparison and the row selection are done by the dataframe
    /// engine.
    pub fn older_than(&self, threshold: i32) -> (kept: People)
        ensures
            kept@ == self@.filter(|row: (i32, Seq<char>)| row.0 > threshold),
    {
        proof {
            use_type_invariant(self);
        }
        let mask = greater_than(&self.ages, threshold);
        let (ages, names) = filter_rows(&self.ages, &self.names, &mask);
        proof {
            lemma_select_rows(
                self.ages@,
                texts(self.names@),
                mask@,
                |row: (i32, Seq<char>)| row.0 > threshold,
            );
            lemma_select_len(self.ages@, texts(self.names@), mask@);
            assert(texts(names@).len() == names@.len());
        }
        People { ages, names }
    }
}

/// Selecting with one mask from two columns of equal length keeps equally
/// many cells of each, and never more than there were.
proof fn lemma_select_len<A, B>(left: Seq<A>, right: Seq<B>, mask: Seq<bool>)
    requires
        left.len() == right.len(),
    ensures
        select(left, mask).len() == select(right, mask).len(),
        select(left, mask).len() <= left.len(),
    decreases left.len(),
{
    if left.len() > 0 {
        lemma_select_len(left.drop_last(), right.drop_last(), mask);
    }
}

/// Selecting rows by a mask that marks exactly the rows satisfying `keep` is
/// filtering the rows by `keep`.
pub proof fn lemma_select_rows(
    ages: Seq<i32>,
    names: Seq<Seq<char>>,
    mask: Seq<bool>,
    keep: spec_fn((i32, Seq<char>)) -> bool,
)
    requires
        ages.len() == names.len(),
        ages.len() <= mask.len(),
        forall|i: int| 0 <= i < ages.len() ==> mask[i] == keep((ages[i], names[i])),
    ensures
        select(ages, mask).len() == select(names, mask).len(),
        rows_of(select(ages, mask), select(names, mask)) == rows_of(ages, names).filter(keep),
    decreases ages.len(),
{
    reveal(Seq::filter);
    lemma_select_len(ages, names, mask);
    let rows = rows_of(ages, names);
    if ages.len() == 0 {
        assert(rows_of(select(ages, mask), select(names, mask)) =~= rows.filter(keep));
    } else {
        let last = ages.len() - 1;
        lemma_select_rows(ages.drop_last(), names.drop_last(), mask, keep);
        lemma_select_len(ages.drop_last(), names.drop_last(), mask);
        assert(rows.drop_last() =~= rows_of(ages.drop_last(), names.drop_last()));
        assert(rows.last() == (ages[last], names[last]));
        let kept_ages = select(ages.drop_last(), mask);
        let kept_names = select(names.drop_last(), mask);
        if mask[last] {
            assert(rows_of(kept_ages.push(ages[last]), kept_names.push(names[last])) =~= rows_of(
                kept_ages,
                kept_names,
            ).push((ages[last], names[last])));
        }
    }
}

} // verus!
