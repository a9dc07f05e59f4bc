//! Join keys: the columns that an equi-join compares, and their canonical bytes.

use vstd::prelude::*;

use super::model::Matching;
use crate::query::error::{Fault, QueryError};
use crate::query::expression::compare::{as_decimal, exact_of};
use crate::query::expression::{BinaryOperator, Expr, opt_term, Term, term_of};
use crate::query::volcano::rows::Row;
use crate::storage::codec::{key_of, key_written};
use crate::storage::float::widened;
use crate::storage::types::{rows_of, Datum, Tuple, Value};

verus! {

/// The key columns of an equi-join, each counted within its own side: those of a predicate
/// `column = column` with one column on each side.
pub open spec fn equi_columns(on: Option<Term>, left_arity: nat) -> Option<(nat, nat)> {
    match on {
        Some(Term::Binary(BinaryOperator::Eq, lhs, rhs)) => match (*lhs, *rhs) {
            (Term::Column(a), Term::Column(b)) => if a < left_arity && b >= left_arity {
                Some((a, (b - left_arity) as nat))
            } else if b < left_arity && a >= left_arity {
                Some((b, (a - left_arity) as nat))
            } else {
                None
            },
            _ => None,
        },
        _ => None,
    }
}

/// Why a predicate has no key columns.
pub open spec fn equi_fault(on: Option<Term>) -> Fault {
    match on {
        Some(Term::Binary(BinaryOperator::Eq, lhs, rhs)) => match (*lhs, *rhs) {
            (Term::Column(_), Term::Column(_)) => Fault::Internal(
                "equi-join key must reference both sides"@,
            ),
            _ => Fault::Internal("equi-join key must be `column = column`"@),
        },
        _ => Fault::Internal("equi-join requires an equi-join predicate"@),
    }
}

/// The (left, right) key positions of an equi-join predicate, if it is one.
pub fn equi_join_keys(on: &Option<Expr>, left_arity: usize) -> (r: Option<(usize, usize)>)
    ensures
        match r {
            Some((a, b)) => equi_columns(opt_term(*on), left_arity as nat) == Some(
                (a as nat, b as nat),
            ),
            None => equi_columns(opt_term(*on), left_arity as nat) is None,
        },
{
    proof {
        reveal_with_fuel(term_of, 2);
    }
    if let Some(Expr::Binary { op, lhs, rhs }) = on {
        if *op == BinaryOperator::Eq {
            if let Expr::Column { index: a } = &**lhs {
                if let Expr::Column { index: b } = &**rhs {
                    if *a < left_arity && *b >= left_arity {
                        return Some((*a, *b - left_arity));
                    } else if *b < left_arity && *a >= left_arity {
                        return Some((*b, *a - left_arity));
                    }
                }
            }
        }
    }
    None
}

/// The (left, right) key positions of an equi-join predicate; an error where the predicate is
/// no `column = column` over both sides.
pub fn equi_keys(on: &Option<Expr>, left_arity: usize) -> (r: Result<(usize, usize), QueryError>)
    ensures
        match r {
            Ok((a, b)) => equi_columns(opt_term(*on), left_arity as nat) == Some(
                (a as nat, b as nat),
            ),
            Err(e) => equi_columns(opt_term(*on), left_arity as nat) is None && e@ == equi_fault(
                opt_term(*on),
            ),
        },
{
    proof {
        reveal_with_fuel(term_of, 2);
    }
    if let Some(keys) = equi_join_keys(on, left_arity) {
        return Ok(keys);
    }
    if let Some(Expr::Binary { op, lhs, rhs }) = on {
        if *op == BinaryOperator::Eq {
            if let Expr::Column { .. } = &**lhs {
                if let Expr::Column { .. } = &**rhs {
                    return Err(QueryError::internal("equi-join key must reference both sides"));
                }
            }
            return Err(QueryError::internal("equi-join key must be `column = column`"));
        }
    }
    Err(QueryError::internal("equi-join requires an equi-join predicate"))
}

/// The form in which a value is keyed: an exact number of any kind as a decimal, a float as a
/// 64-bit one, and anything else as it is.
pub open spec fn canonical(d: Datum) -> Datum {
    match d {
        Datum::Float32(f) => Datum::Float64(widened(f)),
        _ => match exact_of(d) {
            Some(p) => Datum::Numeric(p),
            None => d,
        },
    }
}

/// The byte that tells the kinds of canonical values apart.
pub open spec fn kind_byte(d: Datum) -> u8 {
    match d {
        Datum::Null => 0,
        Datum::Bool(_) => 1,
        Datum::Int16(_) => 2,
        Datum::Int32(_) => 2,
        Datum::Int64(_) => 2,
        Datum::Numeric(_) => 2,
        Datum::Float32(_) => 3,
        Datum::Float64(_) => 3,
        Datum::Text(_) => 4,
        Datum::Bytes(_) => 5,
        Datum::Json(_) => 6,
        Datum::Date(_) => 7,
        Datum::Timestamp(_) => 8,
        Datum::Time(_) => 9,
        Datum::Uuid(_) => 10,
        Datum::Interval(_) => 11,
        Datum::Array(_) => 12,
    }
}

/// A join key's canonical bytes: the kind of the value and the key of its canonical form. There
/// are none for a null, which never matches.
#[verifier::opaque]
pub open spec fn join_key(d: Datum) -> Result<Option<Seq<u8>>, Fault> {
    if d is Null {
        Ok(None)
    } else {
        match key_of(canonical(d)) {
            Some(k) => Ok(Some(seq![kind_byte(d)] + k)),
            None => Err(Fault::Type("cannot hash this join key: NullKey"@)),
        }
    }
}

fn kind_of(value: &Value) -> (r: u8)
    ensures
        r == kind_byte(value@),
{
    match value {
        Value::Null => 0,
        Value::Bool(_) => 1,
        Value::Int16(_) => 2,
        Value::Int32(_) => 2,
        Value::Int64(_) => 2,
        Value::Numeric(_) => 2,
        Value::Float32(_) => 3,
        Value::Float64(_) => 3,
        Value::Text(_) => 4,
        Value::Bytes(_) => 5,
        Value::Json(_) => 6,
        Value::Date(_) => 7,
        Value::Timestamp(_) => 8,
        Value::Time(_) => 9,
        Value::Uuid(_) => 10,
        Value::Interval(_) => 11,
        Value::Array(_) => 12,
    }
}

/// A join key's canonical bytes, or `None` for a null. A value without a key encoding, an
/// array that holds a null, is a type error.
pub fn key_bytes(value: &Value) -> (r: Result<Option<Vec<u8>>, QueryError>)
    ensures
        match r {
            Ok(Some(k)) => join_key(value@) == Ok::<Option<Seq<u8>>, Fault>(Some(k@)),
            Ok(None) => join_key(value@) == Ok::<Option<Seq<u8>>, Fault>(None),
            Err(e) => join_key(value@) == Err::<Option<Seq<u8>>, Fault>(e@),
        },
        (r matches Ok(None)) <==> value@ is Null,
{
    proof {
        reveal(join_key);
    }
    if value.is_null() {
        return Ok(None);
    }
    let mut buf: Vec<u8> = Vec::new();
    buf.push(kind_of(value));
    let ghost head = buf@;
    assert(head =~= seq![kind_byte(value@)]);
    let written = match value {
        Value::Float32(f) => Value::Float64(f.widen()).encode_key(&mut buf),
        _ => match as_decimal(value) {
            Some(d) => Value::Numeric(d).encode_key(&mut buf),
            None => value.encode_key(&mut buf),
        },
    };
    if written.is_err() {
        return Err(QueryError::type_error("cannot hash this join key: NullKey"));
    }
    assert(buf@ =~= head + key_written(canonical(value@)).0);
    Ok(Some(buf))
}

/// Whether `=` on two values goes by more than their key bytes: a float beside an exact number,
/// which are compared as floats, and two JSON documents.
pub open spec fn compared_by_value(a: Datum, b: Datum) -> bool {
    ||| (a is Float32 || a is Float64) && exact_of(b) is Some
    ||| exact_of(a) is Some && (b is Float32 || b is Float64)
    ||| a is Json && b is Json
}

/// Whether some pair of keys has to be compared by value.
pub open spec fn need_values(left: Seq<Row>, right: Seq<Row>, left_key: nat, right_key: nat) -> bool {
    exists|i: int, j: int|
        0 <= i < left.len() && 0 <= j < right.len() && compared_by_value(
            (#[trigger] left[i])[left_key as int],
            (#[trigger] right[j])[right_key as int],
        )
}

/// Which kinds of keys a column holds, of those that may have to be compared by value.
struct KeyKinds {
    float: bool,
    exact: bool,
    json: bool,
}

impl KeyKinds {
    spec fn of(self, rows: Seq<Row>, key: nat, n: int) -> bool {
        &&& self.float <==> exists|i: int|
            0 <= i < n && ((#[trigger] rows[i])[key as int] is Float32 || rows[i][key as int] is Float64)
        &&& self.exact <==> exists|i: int|
            0 <= i < n && exact_of((#[trigger] rows[i])[key as int]) is Some
        &&& self.json <==> exists|i: int| 0 <= i < n && (#[trigger] rows[i])[key as int] is Json
    }
}

fn key_kinds(rows: &Vec<Tuple>, key: usize) -> (r: KeyKinds)
    requires
        forall|i: int| 0 <= i < rows@.len() ==> key < (#[trigger] rows_of(rows@)[i]).len(),
    ensures
        r.of(rows_of(rows@), key as nat, rows@.len() as int),
{
    let ghost rs = rows_of(rows@);
    let mut kinds = KeyKinds { float: false, exact: false, json: false };
    let mut i: usize = 0;
    while i < rows.len()
        invariant
            i <= rows@.len(),
            rs == rows_of(rows@),
            forall|i: int| 0 <= i < rows@.len() ==> key < (#[trigger] rs[i]).len(),
            kinds.of(rs, key as nat, i as int),
        decreases rows@.len() - i,
    {
        let ghost before = kinds;
        assert(rs[i as int] == rows@[i as int]@ && key < rs[i as int].len());
        match &rows[i].values[key] {
            Value::Float32(_) => {
                kinds.float = true;
            },
            Value::Float64(_) => {
                kinds.float = true;
            },
            Value::Json(_) => {
                kinds.json = true;
            },
            Value::Int16(_) => {
                kinds.exact = true;
            },
            Value::Int32(_) => {
                kinds.exact = true;
            },
            Value::Int64(_) => {
                kinds.exact = true;
            },
            Value::Numeric(_) => {
                kinds.exact = true;
            },
            _ => {},
        }
        assert(kinds.of(rs, key as nat, i + 1)) by {
            assert forall|p: int| 0 <= p < i + 1 implies p < i || rs[p] == rs[i as int] by {}
        }
        i = i + 1;
    }
    kinds
}

/// Whether some pair of keys has to be compared by value.
pub fn keys_need_values(
    left: &Vec<Tuple>,
    right: &Vec<Tuple>,
    left_key: usize,
    right_key: usize,
) -> (r: bool)
    requires
        forall|i: int| 0 <= i < left@.len() ==> left_key < (#[trigger] rows_of(left@)[i]).len(),
        forall|j: int| 0 <= j < right@.len() ==> right_key < (#[trigger] rows_of(right@)[j]).len(),
    ensures
        r == need_values(rows_of(left@), rows_of(right@), left_key as nat, right_key as nat),
{
    let l = key_kinds(left, left_key);
    let r = key_kinds(right, right_key);
    (l.float && r.exact) || (l.exact && r.float) || (l.json && r.json)
}

/// The matching of a hash join: both sides have a key, and the bytes are the same.
pub open spec fn key_matching(left_key: nat, right_key: nat) -> Matching {
    |l: Row, r: Row|
        match (join_key(l[left_key as int]), join_key(r[right_key as int])) {
            (Ok(Some(a)), Ok(Some(b))) => a == b,
            _ => false,
        }
}

} // verus!
