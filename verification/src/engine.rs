//! Calls into the polars dataframe engine.
//!
//! Nothing in this module is proved: each function states what the engine
//! does with plain values, and the rest of the library is verified against
//! these statements.

use crate::text::texts;
use polars::prelude::{BooleanChunked, ChunkCompare, DataFrame, NamedFrom, NewChunkedArray, Series};
use vstd::prelude::*;

verus! {

/// The largest number of rows the dataframe engine takes. It keeps lengths
/// as 32-bit numbers and stops the program when a column is longer.
pub const MAX_ROWS: usize = 4294967295;

/// The items of `items` whose position carries `true` in `mask`, in the
/// order in which they stand in `items`.
pub open spec fn select<T>(items: Seq<T>, mask: Seq<bool>) -> Seq<T>
    recommends
        mask.len() == items.len(),
    decreases items.len(),
{
    if items.len() == 0 {
        Seq::empty()
    } else {
        let rest = select(items.drop_last(), mask);
        if mask[items.len() - 1] {
            rest.push(items.last())
        } else {
            rest
        }
    }
}

/// `ChunkCompare::gt` of polars on a 32-bit integer series and a scalar.
///
/// Claimed of the engine: the mask has one entry per value, and entry `i`
/// says whether value `i` is greater than `threshold`. The series is built
/// from `values` without nulls, so the comparison yields no null and no
/// error. More than `MAX_ROWS` values are left out: the engine panics when
/// it builds a series that long.
#[verifier::external_body]
pub(crate) fn greater_than(values: &Vec<i32>, threshold: i32) -> (mask: Vec<bool>)
    requires
        values@.len() <= MAX_ROWS,
    ensures
        mask@.len() == values@.len(),
        forall|i: int| 0 <= i < values@.len() ==> mask@[i] == (values@[i] > threshold),
{
    let series = Series::new("", values.as_slice());
    series.gt(threshold).unwrap().into_no_null_iter().collect()
}

/// `DataFrame::_filter_seq` of polars, the row filter that works on the
/// calling thread, on a frame of one 32-bit integer column and one text
/// column.
///
/// Claimed of the engine: the filtered frame keeps exactly the rows whose
/// mask entry is `true`, in the order of the frame, and each kept row keeps
/// both of its cells. The three lengths must agree: with columns of unequal
/// length the frame cannot be built, and a mask of another length is
/// rejected or broadcast by the engine. More than `MAX_ROWS` rows are left
/// out: the engine panics when it builds a column that long.
///
/// `DataFrame::filter` makes the same selection, but first consults an
/// environment variable to choose between this way and one that cuts the
/// frame and the mask into a piece per thread. The function called here
/// depends on its arguments alone.
#[verifier::external_body]
pub(crate) fn filter_rows(ages: &Vec<i32>, names: &Vec<String>, mask: &Vec<bool>) -> (kept: (
    Vec<i32>,
    Vec<String>,
))
    requires
        ages@.len() <= MAX_ROWS,
        ages@.len() == names@.len(),
        mask@.len() == ages@.len(),
    ensures
        kept.0@ == select(ages@, mask@),
        texts(kept.1@) == select(texts(names@), mask@),
{
    let columns = vec![Series::new("Age", ages.as_slice()), Series::new("Name", names.as_slice())];
    let frame = DataFrame::new(columns).unwrap();
    let filtered = frame._filter_seq(&BooleanChunked::from_slice("", mask.as_slice())).unwrap();
    let ages = filtered.column("Age").unwrap().i32().unwrap();
    let names = filtered.column("Name").unwrap().utf8().unwrap();
    (
        ages.into_no_null_iter().collect(),
        names.into_no_null_iter().map(|s| s.to_string()).collect(),
    )
}

} // verus!
