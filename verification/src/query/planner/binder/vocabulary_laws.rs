//! What the names of functions and types stand for.

use vstd::prelude::*;

use super::expr::{bound, bound_args, call_name, function_of, Visible};
use super::expr_laws::worth;
use super::literal::{mapped_type, typed_value};
use crate::query::error::Fault;
use crate::query::expression::cast::cast_value;
use crate::query::expression::value_laws::called;
use crate::query::expression::{ScalarFunc, Term};
use crate::query::host::{Answer, Question};
use crate::query::planner::ast::{SqlExpr, SqlName, SqlType, SqlZone};
use crate::storage::text::{trimmed, uppercased};
use crate::storage::types::{Datum, LogicalType};

verus! {

/// Whether a name with so many arguments is refused, and otherwise stands for a function.
pub open spec fn stands_for(name: Seq<char>, argc: nat, takes: bool, func: ScalarFunc) -> bool {
    if takes {
        function_of(name, argc) == Ok::<ScalarFunc, Fault>(func)
    } else {
        function_of(name, argc) is Err
    }
}

proof fn lemma_names()
    ensures
        "ABS"@.len() == 3 && "ABS"@[0] == 'A',
        "GREATEST"@.len() == 8 && "GREATEST"@[0] == 'G',
        "LEAST"@.len() == 5 && "LEAST"@[0] == 'L' && "LEAST"@[1] == 'E',
        "MAX"@.len() == 3 && "MAX"@[0] == 'M' && "MAX"@[1] == 'A',
        "MIN"@.len() == 3 && "MIN"@[0] == 'M' && "MIN"@[1] == 'I',
        "ROUND"@.len() == 5 && "ROUND"@[0] == 'R',
        "COALESCE"@.len() == 8 && "COALESCE"@[0] == 'C',
        "NULLIF"@.len() == 6 && "NULLIF"@[0] == 'N',
        "CONCAT"@.len() == 6 && "CONCAT"@[0] == 'C',
        "LENGTH"@.len() == 6 && "LENGTH"@[0] == 'L',
        "CHAR_LENGTH"@.len() == 11,
        "CHARACTER_LENGTH"@.len() == 16,
        "REPEAT"@.len() == 6 && "REPEAT"@[0] == 'R',
        "UPPER"@.len() == 5 && "UPPER"@[0] == 'U' && "UPPER"@[1] == 'P',
        "UCASE"@.len() == 5 && "UCASE"@[0] == 'U' && "UCASE"@[1] == 'C',
        "LOWER"@.len() == 5 && "LOWER"@[0] == 'L' && "LOWER"@[1] == 'O',
        "LCASE"@.len() == 5 && "LCASE"@[0] == 'L' && "LCASE"@[1] == 'C',
{
    reveal_strlit("ABS");
    reveal_strlit("GREATEST");
    reveal_strlit("LEAST");
    reveal_strlit("MAX");
    reveal_strlit("MIN");
    reveal_strlit("ROUND");
    reveal_strlit("COALESCE");
    reveal_strlit("NULLIF");
    reveal_strlit("CONCAT");
    reveal_strlit("LENGTH");
    reveal_strlit("CHAR_LENGTH");
    reveal_strlit("CHARACTER_LENGTH");
    reveal_strlit("REPEAT");
    reveal_strlit("UPPER");
    reveal_strlit("UCASE");
    reveal_strlit("LOWER");
    reveal_strlit("LCASE");
}

/// Every function goes by its own name, with the number of arguments that it takes; `MAX` and
/// `MIN` of two or more arguments are `GREATEST` and `LEAST`, `UCASE` is `UPPER`, `LCASE` is
/// `LOWER`, and `CHAR_LENGTH` and `CHARACTER_LENGTH` are `LENGTH`.
pub proof fn law_function_names(argc: nat)
    ensures
        stands_for("ABS"@, argc, argc == 1, ScalarFunc::Abs),
        stands_for("GREATEST"@, argc, true, ScalarFunc::Greatest),
        stands_for("LEAST"@, argc, true, ScalarFunc::Least),
        stands_for("MAX"@, argc, argc >= 2, ScalarFunc::Greatest),
        stands_for("MIN"@, argc, argc >= 2, ScalarFunc::Least),
        stands_for("ROUND"@, argc, argc == 1, ScalarFunc::Round),
        stands_for("COALESCE"@, argc, argc >= 1, ScalarFunc::Coalesce),
        stands_for("NULLIF"@, argc, argc == 2, ScalarFunc::Nullif),
        stands_for("CONCAT"@, argc, true, ScalarFunc::Concat),
        stands_for("LENGTH"@, argc, argc == 1, ScalarFunc::Length),
        stands_for("CHAR_LENGTH"@, argc, argc == 1, ScalarFunc::Length),
        stands_for("CHARACTER_LENGTH"@, argc, argc == 1, ScalarFunc::Length),
        stands_for("REPEAT"@, argc, argc == 2, ScalarFunc::Repeat),
        stands_for("UPPER"@, argc, argc == 1, ScalarFunc::Upper),
        stands_for("UCASE"@, argc, argc == 1, ScalarFunc::Upper),
        stands_for("LOWER"@, argc, argc == 1, ScalarFunc::Lower),
        stands_for("LCASE"@, argc, argc == 1, ScalarFunc::Lower),
{
    lemma_names();
}

proof fn lemma_args(
    args: Seq<Option<SqlExpr>>,
    n: nat,
    name: Seq<char>,
    scope: Visible,
    table: Seq<(Question, Answer)>,
)
    requires
        n <= args.len(),
        forall|i: int|
            0 <= i < args.len() ==> (#[trigger] args[i]) is Some && bound(args[i]->0, scope, table)
                is Ok,
    ensures
        bound_args(args, n, name, scope, table) is Ok,
        bound_args(args, n, name, scope, table)->Ok_0.len() == n,
        forall|i: int|
            0 <= i < n ==> bound(args[i]->0, scope, table) == Ok::<Term, Fault>(
                #[trigger] bound_args(args, n, name, scope, table)->Ok_0[i],
            ),
    decreases n,
{
    if n > 0 {
        let m = (n - 1) as nat;
        lemma_args(args, m, name, scope, table);
        assert(args[m as int] is Some);
        let before = bound_args(args, m, name, scope, table)->Ok_0;
        let ts = bound_args(args, n, name, scope, table)->Ok_0;
        assert forall|i: int| 0 <= i < n implies bound(args[i]->0, scope, table) == Ok::<
            Term,
            Fault,
        >(#[trigger] ts[i]) by {
            if i < m {
                assert(ts[i] == before[i]);
            }
        }
    }
}

/// A call is worth what the function of its name, whatever its case, makes of its arguments, in
/// the order in which they are written. `ts` are the arguments.
pub proof fn law_calls(
    name: SqlName,
    args: Vec<Option<SqlExpr>>,
    func: ScalarFunc,
    scope: Visible,
    row: Seq<Datum>,
    table: Seq<(Question, Answer)>,
) -> (ts: Seq<Term>)
    requires
        name.parts@.len() == 1,
        name.parts@[0] is Some,
        function_of(uppercased(name.parts@[0]->0@), args@.len()) == Ok::<ScalarFunc, Fault>(func),
        forall|i: int|
            0 <= i < args@.len() ==> (#[trigger] args@[i]) is Some && bound(
                args@[i]->0,
                scope,
                table,
            ) is Ok,
    ensures
        ts.len() == args@.len(),
        forall|i: int|
            0 <= i < ts.len() ==> bound(args@[i]->0, scope, table) == Ok::<Term, Fault>(
                #[trigger] ts[i],
            ),
        worth(
            SqlExpr::Call { name, has_clause: false, listed: true, modified: false, args },
            scope,
            row,
            table,
        ) == called(func, ts, row, table),
{
    let n = uppercased(name.parts@[0]->0@);
    assert(call_name(name) == Some(n));
    lemma_args(args@, args@.len(), n, scope, table);
    let ts = bound_args(args@, args@.len(), n, scope, table)->Ok_0;
    assert(bound(
        SqlExpr::Call { name, has_clause: false, listed: true, modified: false, args },
        scope,
        table,
    ) == Ok::<Term, Fault>(Term::Call(func, ts))) by {
        reveal_with_fuel(bound, 2);
    }
    ts
}

/// The types that SQL names: integers of two, four and eight bytes, single and double floats, a
/// `FLOAT(p)` single up to 24 bits and double beyond, and so on. A timestamp is had with a time
/// zone only, a time without one only.
pub proof fn law_type_names(zone: SqlZone, p: u64)
    ensures
        mapped_type(SqlType::Bool) == Some(LogicalType::Bool),
        mapped_type(SqlType::Boolean) == Some(LogicalType::Bool),
        mapped_type(SqlType::SmallInt) == Some(LogicalType::Int16),
        mapped_type(SqlType::Int2) == Some(LogicalType::Int16),
        mapped_type(SqlType::Int) == Some(LogicalType::Int32),
        mapped_type(SqlType::Integer) == Some(LogicalType::Int32),
        mapped_type(SqlType::Int4) == Some(LogicalType::Int32),
        mapped_type(SqlType::BigInt) == Some(LogicalType::Int64),
        mapped_type(SqlType::Int8) == Some(LogicalType::Int64),
        mapped_type(SqlType::Text) == Some(LogicalType::Text),
        mapped_type(SqlType::Varchar) == Some(LogicalType::Text),
        mapped_type(SqlType::Char) == Some(LogicalType::Text),
        mapped_type(SqlType::CharVarying) == Some(LogicalType::Text),
        mapped_type(SqlType::Bytea) == Some(LogicalType::Bytes),
        mapped_type(SqlType::Json) == Some(LogicalType::Json),
        mapped_type(SqlType::Jsonb) == Some(LogicalType::Json),
        mapped_type(SqlType::Date) == Some(LogicalType::Date),
        mapped_type(SqlType::Real) == Some(LogicalType::Float32),
        mapped_type(SqlType::Float4) == Some(LogicalType::Float32),
        mapped_type(SqlType::Float32) == Some(LogicalType::Float32),
        mapped_type(SqlType::DoublePrecision) == Some(LogicalType::Float64),
        mapped_type(SqlType::Double) == Some(LogicalType::Float64),
        mapped_type(SqlType::Float8) == Some(LogicalType::Float64),
        mapped_type(SqlType::Float64) == Some(LogicalType::Float64),
        mapped_type(SqlType::Numeric) == Some(LogicalType::Numeric),
        mapped_type(SqlType::Decimal) == Some(LogicalType::Numeric),
        mapped_type(SqlType::Dec) == Some(LogicalType::Numeric),
        mapped_type(SqlType::BigNumeric) == Some(LogicalType::Numeric),
        mapped_type(SqlType::BigDecimal) == Some(LogicalType::Numeric),
        mapped_type(SqlType::Uuid) == Some(LogicalType::Uuid),
        mapped_type(SqlType::Interval) == Some(LogicalType::Interval),
        mapped_type(SqlType::Timestamp { zone }) == if zone == SqlZone::With || zone
            == SqlZone::Tz {
            Some(LogicalType::Timestamp)
        } else {
            None
        },
        mapped_type(SqlType::Time { zone }) == if zone == SqlZone::With || zone == SqlZone::Tz {
            None
        } else {
            Some(LogicalType::Time)
        },
        mapped_type(SqlType::Float { precision: None }) == Some(LogicalType::Float64),
        mapped_type(SqlType::Float { precision: Some(p) }) == if p <= 24 {
            Some(LogicalType::Float32)
        } else {
            Some(LogicalType::Float64)
        },
        mapped_type(SqlType::Array(None)) is None,
{
}

/// An array type is that of its elements; arrays do not nest.
pub proof fn law_array_types(elem: SqlType)
    ensures
        mapped_type(SqlType::Array(Some(Box::new(elem)))) == match mapped_type(elem) {
            Some(t) => if t is Array {
                None
            } else {
                Some(LogicalType::Array(Box::new(t)))
            },
            None => None,
        },
{
    reveal_with_fuel(mapped_type, 2);
}

/// A typed literal is the cast of its text: where a text without white space around it casts to
/// a date, a timestamp, a decimal, a time or a UUID, the literal of that type is the same value,
/// and where it does not, the literal is refused.
pub proof fn law_typed_literals_are_casts(
    ty: SqlType,
    t: LogicalType,
    shown: Seq<char>,
    s: Seq<char>,
    d: Datum,
    table: Seq<(Question, Answer)>,
)
    requires
        mapped_type(ty) == Some(t),
        t is Date || t is Timestamp || t is Numeric || t is Time || t is Uuid,
        trimmed(s) == s,
    ensures
        typed_value(ty, shown, Some(s), table) == Ok::<Datum, Fault>(d) <==> cast_value(
            Datum::Text(s),
            t,
            table,
        ) == Ok::<Datum, Fault>(d),
        typed_value(ty, shown, Some(s), table) is Err <==> cast_value(Datum::Text(s), t, table)
            is Err,
        typed_value(ty, shown, None, table) is Err,
{
}

} // verus!
