//! Rows, and what joins do to them.

use vstd::prelude::*;

use crate::query::error::{Fault, QueryError};
use crate::storage::types::{clone_values, data_of, Datum, Tuple, Value};

verus! {

/// What a row is, mathematically.
pub type Row = Seq<Datum>;

/// One item of a row stream: a row, or the error met in its place.
pub type RowResult = Result<Tuple, QueryError>;

/// The items of a row stream.
pub open spec fn stream_of(items: Seq<RowResult>) -> Seq<Result<Row, Fault>> {
    Seq::new(
        items.len(),
        |i: int|
            match items[i] {
                Ok(t) => Ok(t@),
                Err(e) => Err(e@),
            },
    )
}

/// The rows of a stream without errors.
pub open spec fn stream_rows(items: Seq<Result<Row, Fault>>) -> Seq<Row> {
    Seq::new(items.len(), |i: int| items[i]->Ok_0)
}

/// `n` nulls.
pub open spec fn nulls(n: nat) -> Row {
    Seq::new(n, |i: int| Datum::Null)
}

/// A copy of `right`'s values behind `left`'s.
fn append_values(left: &mut Vec<Value>, right: &Vec<Value>)
    ensures
        data_of(final(left)@) == data_of(old(left)@) + data_of(right@),
{
    let mut i: usize = 0;
    assert(data_of(left@) =~= data_of(old(left)@) + data_of(right@).take(0));
    while i < right.len()
        invariant
            i <= right@.len(),
            data_of(left@) == data_of(old(left)@) + data_of(right@).take(i as int),
        decreases right@.len() - i,
    {
        let ghost before = data_of(left@);
        let v = right[i].clone();
        left.push(v);
        assert(data_of(left@) =~= before.push(v@));
        assert(data_of(right@).take(i + 1) =~= data_of(right@).take(i as int).push(v@));
        assert(data_of(left@) =~= data_of(old(left)@) + data_of(right@).take(i + 1));
        i = i + 1;
    }
    assert(data_of(right@).take(right@.len() as int) =~= data_of(right@));
}

/// Add `n` nulls.
fn append_nulls(values: &mut Vec<Value>, n: usize)
    ensures
        data_of(final(values)@) == data_of(old(values)@) + nulls(n as nat),
{
    let mut i: usize = 0;
    assert(data_of(values@) =~= data_of(old(values)@) + nulls(0));
    while i < n
        invariant
            i <= n,
            data_of(values@) == data_of(old(values)@) + nulls(i as nat),
        decreases n - i,
    {
        let ghost before = data_of(values@);
        values.push(Value::Null);
        assert(data_of(values@) =~= before.push(Datum::Null));
        assert(nulls((i + 1) as nat) =~= nulls(i as nat).push(Datum::Null));
        assert(data_of(values@) =~= data_of(old(values)@) + nulls((i + 1) as nat));
        i = i + 1;
    }
}

/// `left ++ right`.
pub fn concat(left: &Tuple, right: &Tuple) -> (r: Tuple)
    ensures
        r@ == left@ + right@,
{
    let mut values = clone_values(&left.values);
    append_values(&mut values, &right.values);
    Tuple { values }
}

/// `left ++ NULLs`: an unmatched left row of a `LEFT` or `FULL` join.
pub fn pad_right(left: &Tuple, right_width: usize) -> (r: Tuple)
    ensures
        r@ == left@ + nulls(right_width as nat),
{
    let mut values = clone_values(&left.values);
    append_nulls(&mut values, right_width);
    Tuple { values }
}

/// `NULLs ++ right`: an unmatched right row of a `RIGHT` or `FULL` join.
pub fn pad_left(left_width: usize, right: &Tuple) -> (r: Tuple)
    ensures
        r@ == nulls(left_width as nat) + right@,
{
    let mut values: Vec<Value> = Vec::new();
    append_nulls(&mut values, left_width);
    append_values(&mut values, &right.values);
    assert(data_of(values@) =~= nulls(left_width as nat) + right@);
    Tuple { values }
}

} // verus!
