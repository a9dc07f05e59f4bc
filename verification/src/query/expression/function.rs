//! Built-in scalar functions on values.

use vstd::prelude::*;

use super::compare::{as_i64, int_of, values_eq, values_same};
use super::like::{like, like_match};
use crate::query::error::{agrees, Fault, QueryError};
use crate::query::host::{
    ask_float, ask_float32, asked_float, asked_float32, Answer, Answers, HostOp, Question,
};
use crate::storage::float::widened;
use crate::storage::shown::shown;
use crate::storage::text::{
    chars_of, lowercased, push_str, string_from_chars, string_of_range, strip_end, strip_start,
    to_lowercase, to_uppercase, uppercased,
};
use crate::storage::types::{Datum, Float32, Float64, Value};

verus! {

// --- sign ---

/// A 32-bit float with its sign bit flipped.
pub open spec fn negated32(f: Float32) -> Float32 {
    if f.bits < 0x8000_0000 {
        Float32 { bits: (f.bits + 0x8000_0000) as u32 }
    } else {
        Float32 { bits: (f.bits - 0x8000_0000) as u32 }
    }
}

/// A 64-bit float with its sign bit flipped.
pub open spec fn negated64(f: Float64) -> Float64 {
    if f.bits < 0x8000_0000_0000_0000 {
        Float64 { bits: (f.bits + 0x8000_0000_0000_0000) as u64 }
    } else {
        Float64 { bits: (f.bits - 0x8000_0000_0000_0000) as u64 }
    }
}

/// A 32-bit float with its sign bit cleared.
pub open spec fn magnitude_of32(f: Float32) -> Float32 {
    if f.bits < 0x8000_0000 {
        f
    } else {
        negated32(f)
    }
}

/// A 64-bit float with its sign bit cleared.
pub open spec fn magnitude_of64(f: Float64) -> Float64 {
    if f.bits < 0x8000_0000_0000_0000 {
        f
    } else {
        negated64(f)
    }
}

fn negate32(f: Float32) -> (r: Float32)
    ensures
        r == negated32(f),
{
    if f.bits < 0x8000_0000 {
        Float32 { bits: f.bits + 0x8000_0000 }
    } else {
        Float32 { bits: f.bits - 0x8000_0000 }
    }
}

fn negate64(f: Float64) -> (r: Float64)
    ensures
        r == negated64(f),
{
    if f.bits < 0x8000_0000_0000_0000 {
        Float64 { bits: f.bits + 0x8000_0000_0000_0000 }
    } else {
        Float64 { bits: f.bits - 0x8000_0000_0000_0000 }
    }
}

/// `-x`: a number with the opposite sign. The least integer of a width has none.
pub open spec fn neg_value(d: Datum) -> Result<Datum, Fault> {
    match d {
        Datum::Null => Ok(Datum::Null),
        Datum::Int16(n) => if n == i16::MIN {
            Err(Fault::Type("negation out of range"@))
        } else {
            Ok(Datum::Int16((-n) as i16))
        },
        Datum::Int32(n) => if n == i32::MIN {
            Err(Fault::Type("negation out of range"@))
        } else {
            Ok(Datum::Int32((-n) as i32))
        },
        Datum::Int64(n) => if n == i64::MIN {
            Err(Fault::Type("negation out of range"@))
        } else {
            Ok(Datum::Int64((-n) as i64))
        },
        Datum::Float32(f) => Ok(Datum::Float32(negated32(f))),
        Datum::Float64(f) => Ok(Datum::Float64(negated64(f))),
        Datum::Numeric(p) => Ok(Datum::Numeric(p.negated())),
        _ => Err(Fault::Type("cannot negate "@ + shown(d))),
    }
}

/// Arithmetic negation.
pub fn eval_neg(v: Value) -> (r: Result<Value, QueryError>)
    ensures
        agrees(r, neg_value(v@)),
{
    match v {
        Value::Null => Ok(Value::Null),
        Value::Int16(n) => if n == -0x8000 {
            Err(QueryError::type_error("negation out of range"))
        } else {
            Ok(Value::Int16(-n))
        },
        Value::Int32(n) => if n == -0x8000_0000 {
            Err(QueryError::type_error("negation out of range"))
        } else {
            Ok(Value::Int32(-n))
        },
        Value::Int64(n) => if n == -0x8000_0000_0000_0000 {
            Err(QueryError::type_error("negation out of range"))
        } else {
            Ok(Value::Int64(-n))
        },
        Value::Float32(f) => Ok(Value::Float32(negate32(f))),
        Value::Float64(f) => Ok(Value::Float64(negate64(f))),
        Value::Numeric(d) => Ok(Value::Numeric(d.negate())),
        _ => Err(QueryError::type_over("cannot negate ", &v)),
    }
}

/// `ABS(x)`: a number without its sign. The least integer of a width has none.
pub open spec fn abs_value(d: Datum) -> Result<Datum, Fault> {
    match d {
        Datum::Null => Ok(Datum::Null),
        Datum::Int16(n) => if n >= 0 {
            Ok(d)
        } else if n == i16::MIN {
            Err(Fault::Type("ABS argument out of range"@))
        } else {
            Ok(Datum::Int16((-n) as i16))
        },
        Datum::Int32(n) => if n >= 0 {
            Ok(d)
        } else if n == i32::MIN {
            Err(Fault::Type("ABS argument out of range"@))
        } else {
            Ok(Datum::Int32((-n) as i32))
        },
        Datum::Int64(n) => if n >= 0 {
            Ok(d)
        } else if n == i64::MIN {
            Err(Fault::Type("ABS argument out of range"@))
        } else {
            Ok(Datum::Int64((-n) as i64))
        },
        Datum::Float32(f) => Ok(Datum::Float32(magnitude_of32(f))),
        Datum::Float64(f) => Ok(Datum::Float64(magnitude_of64(f))),
        Datum::Numeric(p) => Ok(Datum::Numeric(p.magnitude())),
        _ => Err(Fault::Type("ABS of non-numeric value "@ + shown(d))),
    }
}

/// Absolute value.
pub fn eval_abs(v: Value) -> (r: Result<Value, QueryError>)
    ensures
        agrees(r, abs_value(v@)),
{
    match v {
        Value::Null => Ok(Value::Null),
        Value::Int16(n) => if n >= 0 {
            Ok(v)
        } else if n == -0x8000 {
            Err(QueryError::type_error("ABS argument out of range"))
        } else {
            Ok(Value::Int16(-n))
        },
        Value::Int32(n) => if n >= 0 {
            Ok(v)
        } else if n == -0x8000_0000 {
            Err(QueryError::type_error("ABS argument out of range"))
        } else {
            Ok(Value::Int32(-n))
        },
        Value::Int64(n) => if n >= 0 {
            Ok(v)
        } else if n == -0x8000_0000_0000_0000 {
            Err(QueryError::type_error("ABS argument out of range"))
        } else {
            Ok(Value::Int64(-n))
        },
        Value::Float32(f) => Ok(
            Value::Float32(
                if f.bits < 0x8000_0000 {
                    f
                } else {
                    negate32(f)
                },
            ),
        ),
        Value::Float64(f) => Ok(
            Value::Float64(
                if f.bits < 0x8000_0000_0000_0000 {
                    f
                } else {
                    negate64(f)
                },
            ),
        ),
        Value::Numeric(d) => Ok(Value::Numeric(d.abs())),
        _ => Err(QueryError::type_over("ABS of non-numeric value ", &v)),
    }
}

// --- rounding ---

/// The ways to round to a whole number.
#[derive(Debug, Clone, Copy, PartialEq, Eq, Structural)]
pub enum Rounding {
    Ceil,
    Floor,
    Nearest,
}

/// The question that asks for a float rounded.
pub open spec fn rounding_question(mode: Rounding, f: Float64) -> Question {
    match mode {
        Rounding::Ceil => Question::Ceil(f),
        Rounding::Floor => Question::Floor(f),
        Rounding::Nearest => Question::Round(f),
    }
}

/// A number rounded to a whole one, in its own type. Integers are whole already.
pub open spec fn round_value(d: Datum, mode: Rounding, table: Seq<(Question, Answer)>) -> Result<
    Datum,
    Fault,
> {
    match d {
        Datum::Null => Ok(Datum::Null),
        Datum::Int16(_) => Ok(d),
        Datum::Int32(_) => Ok(d),
        Datum::Int64(_) => Ok(d),
        Datum::Float32(f) => match asked_float(table, rounding_question(mode, widened(f))) {
            Err(e) => Err(e),
            Ok(g) => match asked_float32(table, Question::Narrow(g)) {
                Err(e) => Err(e),
                Ok(h) => Ok(Datum::Float32(h)),
            },
        },
        Datum::Float64(f) => match asked_float(table, rounding_question(mode, f)) {
            Err(e) => Err(e),
            Ok(g) => Ok(Datum::Float64(g)),
        },
        Datum::Numeric(p) => Ok(
            Datum::Numeric(
                match mode {
                    Rounding::Ceil => p.ceiled(),
                    Rounding::Floor => p.floored(),
                    Rounding::Nearest => p.rounded(),
                },
            ),
        ),
        _ => Err(Fault::Type("rounding a non-numeric value "@ + shown(d))),
    }
}

fn ask_rounded(mode: Rounding, f: Float64, answers: &Answers) -> (r: Result<Float64, QueryError>)
    ensures
        agrees(r, asked_float(answers@, rounding_question(mode, f))),
{
    match mode {
        Rounding::Ceil => ask_float(answers, HostOp::Ceil(f)),
        Rounding::Floor => ask_float(answers, HostOp::Floor(f)),
        Rounding::Nearest => ask_float(answers, HostOp::Round(f)),
    }
}

/// Round to a whole number.
pub fn eval_round(v: Value, mode: Rounding, answers: &Answers) -> (r: Result<Value, QueryError>)
    ensures
        agrees(r, round_value(v@, mode, answers@)),
{
    match v {
        Value::Null => Ok(Value::Null),
        Value::Int16(_) => Ok(v),
        Value::Int32(_) => Ok(v),
        Value::Int64(_) => Ok(v),
        Value::Float32(f) => match ask_rounded(mode, f.widen(), answers) {
            Err(e) => Err(e),
            Ok(g) => match ask_float32(answers, HostOp::Narrow(g)) {
                Err(e) => Err(e),
                Ok(h) => Ok(Value::Float32(h)),
            },
        },
        Value::Float64(f) => match ask_rounded(mode, f, answers) {
            Err(e) => Err(e),
            Ok(g) => Ok(Value::Float64(g)),
        },
        Value::Numeric(d) => Ok(
            Value::Numeric(
                match mode {
                    Rounding::Ceil => d.ceil(),
                    Rounding::Floor => d.floor(),
                    Rounding::Nearest => d.round(),
                },
            ),
        ),
        _ => Err(QueryError::type_over("rounding a non-numeric value ", &v)),
    }
}

// --- text ---

/// `LIKE`: text against text; a null on either side gives a null.
pub open spec fn like_value(s: Datum, p: Datum, negated: bool) -> Result<Datum, Fault> {
    if s is Null || p is Null {
        Ok(Datum::Null)
    } else {
        match (s, p) {
            (Datum::Text(t), Datum::Text(q)) => Ok(Datum::Bool(like(t, q) != negated)),
            _ => Err(
                Fault::Type(
                    "LIKE expects text operands, got "@ + shown(s) + " / "@ + shown(p),
                ),
            ),
        }
    }
}

/// `LIKE` evaluation.
pub fn eval_like(s: Value, p: Value, negated: bool) -> (r: Result<Value, QueryError>)
    ensures
        agrees(r, like_value(s@, p@, negated)),
{
    if s.is_null() || p.is_null() {
        return Ok(Value::Null);
    }
    match (&s, &p) {
        (Value::Text(t), Value::Text(q)) => Ok(
            Value::Bool(like_match(t.as_str(), q.as_str()) != negated),
        ),
        _ => Err(QueryError::type_over_two("LIKE expects text operands, got ", &s, " / ", &p)),
    }
}

/// The characters of `s` that stand at the places `start` to `start + len - 1`, counted from
/// one; places outside the text have none.
pub open spec fn substring(s: Seq<char>, start: int, len: int) -> Seq<char> {
    let from = if start < 1 {
        1
    } else {
        start
    };
    let to = if start + len > s.len() + 1 {
        s.len() as int + 1
    } else {
        start + len
    };
    if to <= from {
        Seq::empty()
    } else {
        s.subrange(from - 1, to - 1)
    }
}

/// `SUBSTRING(s FROM start FOR len)`.
pub open spec fn substr_value(s: Datum, start: Datum, len: Datum) -> Result<Datum, Fault> {
    if s is Null || start is Null || len is Null {
        Ok(Datum::Null)
    } else {
        match s {
            Datum::Text(t) => match (int_of(start), int_of(len)) {
                (Some(a), Some(n)) => Ok(Datum::Text(substring(t, a as int, n as int))),
                (None, _) => Err(Fault::Type("SUBSTRING start must be an integer"@)),
                (_, None) => Err(Fault::Type("SUBSTRING length must be an integer"@)),
            },
            _ => Err(Fault::Type("SUBSTRING expects a text value"@)),
        }
    }
}

/// `SUBSTRING` evaluation: out-of-range bounds clamp.
pub fn eval_substr(s: Value, start: Value, len: Value) -> (r: Result<Value, QueryError>)
    ensures
        agrees(r, substr_value(s@, start@, len@)),
{
    if s.is_null() || start.is_null() || len.is_null() {
        return Ok(Value::Null);
    }
    let text = match s {
        Value::Text(t) => t,
        _ => return Err(QueryError::type_error("SUBSTRING expects a text value")),
    };
    let a = match as_i64(&start) {
        Some(a) => a as i128,
        None => return Err(QueryError::type_error("SUBSTRING start must be an integer")),
    };
    let n = match as_i64(&len) {
        Some(n) => n as i128,
        None => return Err(QueryError::type_error("SUBSTRING length must be an integer")),
    };
    let cs = chars_of(text.as_str());
    let end: i128 = cs.len() as i128 + 1;
    let from: i128 = if a < 1 {
        1
    } else {
        a
    };
    let to: i128 = if a + n > end {
        end
    } else {
        a + n
    };
    if to <= from {
        let empty = String::new();
        assert(empty@ =~= Seq::<char>::empty());
        return Ok(Value::Text(empty));
    }
    Ok(Value::Text(string_of_range(&cs, (from - 1) as usize, (to - 1) as usize)))
}

/// A text without the characters of a set at the sides asked for.
pub open spec fn trim_of(s: Seq<char>, set: Seq<char>, leading: bool, trailing: bool) -> Seq<char> {
    let front = if leading {
        strip_start(s, |c: char| set.contains(c))
    } else {
        s
    };
    if trailing {
        strip_end(front, |c: char| set.contains(c))
    } else {
        front
    }
}

/// `TRIM`.
pub open spec fn trim_value(s: Datum, set: Datum, leading: bool, trailing: bool) -> Result<
    Datum,
    Fault,
> {
    if s is Null || set is Null {
        Ok(Datum::Null)
    } else {
        match (s, set) {
            (Datum::Text(t), Datum::Text(cs)) => Ok(
                Datum::Text(trim_of(t, cs, leading, trailing)),
            ),
            _ => Err(Fault::Type("TRIM expects text values"@)),
        }
    }
}

fn contains_char(set: &Vec<char>, c: char) -> (r: bool)
    ensures
        r == set@.contains(c),
{
    let mut i: usize = 0;
    while i < set.len()
        invariant
            i <= set@.len(),
            forall|j: int| 0 <= j < i ==> set@[j] != c,
        decreases set@.len() - i,
    {
        if set[i] == c {
            assert(set@[i as int] == c);
            return true;
        }
        i = i + 1;
    }
    false
}

/// `TRIM` evaluation.
pub fn eval_trim(s: Value, set: Value, leading: bool, trailing: bool) -> (r: Result<
    Value,
    QueryError,
>)
    ensures
        agrees(r, trim_value(s@, set@, leading, trailing)),
{
    if s.is_null() || set.is_null() {
        return Ok(Value::Null);
    }
    let (text, chars) = match (s, set) {
        (Value::Text(t), Value::Text(c)) => (t, c),
        _ => return Err(QueryError::type_error("TRIM expects text values")),
    };
    let cs = chars_of(text.as_str());
    let drop = chars_of(chars.as_str());
    let ghost dropped = |c: char| chars@.contains(c);
    let mut start: usize = 0;
    let mut end: usize = cs.len();
    assert(cs@.subrange(0, end as int) =~= cs@);
    if leading {
        while start < end && contains_char(&drop, cs[start])
            invariant
                start <= end == cs@.len(),
                drop@ == chars@,
                dropped == (|c: char| chars@.contains(c)),
                strip_start(cs@, dropped) == strip_start(
                    cs@.subrange(start as int, end as int),
                    dropped,
                ),
            decreases end - start,
        {
            assert(cs@.subrange(start as int, end as int).drop_first() =~= cs@.subrange(
                start + 1,
                end as int,
            ));
            start = start + 1;
        }
    }
    let ghost front = if leading {
        strip_start(cs@, dropped)
    } else {
        cs@
    };
    assert(front =~= cs@.subrange(start as int, end as int));
    if trailing {
        while end > start && contains_char(&drop, cs[end - 1])
            invariant
                start <= end <= cs@.len(),
                drop@ == chars@,
                dropped == (|c: char| chars@.contains(c)),
                strip_end(front, dropped) == strip_end(
                    cs@.subrange(start as int, end as int),
                    dropped,
                ),
            decreases end - start,
        {
            assert(cs@.subrange(start as int, end as int).drop_last() =~= cs@.subrange(
                start as int,
                end - 1,
            ));
            end = end - 1;
        }
    }
    Ok(Value::Text(string_of_range(&cs, start, end)))
}

/// `LENGTH(s)`: the number of characters.
pub open spec fn length_value(d: Datum) -> Result<Datum, Fault> {
    match d {
        Datum::Null => Ok(Datum::Null),
        Datum::Text(s) => Ok(Datum::Int64(s.len() as i64)),
        _ => Err(Fault::Type("LENGTH of non-text value "@ + shown(d))),
    }
}

/// Character count of a text value.
pub fn eval_length(v: Value) -> (r: Result<Value, QueryError>)
    ensures
        agrees(r, length_value(v@)),
{
    match v {
        Value::Null => Ok(Value::Null),
        Value::Text(s) => {
            let cs = chars_of(s.as_str());
            Ok(Value::Int64(cs.len() as i64))
        },
        _ => Err(QueryError::type_over("LENGTH of non-text value ", &v)),
    }
}

/// `n` copies of `s`, one after the other.
pub open spec fn repeated(s: Seq<char>, n: nat) -> Seq<char>
    decreases n,
{
    if n == 0 {
        Seq::empty()
    } else {
        repeated(s, (n - 1) as nat) + s
    }
}

/// `REPEAT(s, n)`: nothing where `n` is not positive.
pub open spec fn repeat_value(s: Datum, n: Datum) -> Result<Datum, Fault> {
    if s is Null || n is Null {
        Ok(Datum::Null)
    } else {
        match (s, int_of(n)) {
            (Datum::Text(t), Some(k)) => Ok(
                Datum::Text(
                    repeated(
                        t,
                        if k < 0 {
                            0
                        } else {
                            k as nat
                        },
                    ),
                ),
            ),
            (Datum::Text(_), None) => Err(Fault::Type("REPEAT count must be an integer"@)),
            _ => Err(Fault::Type("REPEAT expects a text first argument"@)),
        }
    }
}

/// `REPEAT` evaluation.
pub fn eval_repeat(s: Value, n: Value) -> (r: Result<Value, QueryError>)
    ensures
        agrees(r, repeat_value(s@, n@)),
{
    if s.is_null() || n.is_null() {
        return Ok(Value::Null);
    }
    let text = match s {
        Value::Text(t) => t,
        _ => return Err(QueryError::type_error("REPEAT expects a text first argument")),
    };
    let count: i64 = match as_i64(&n) {
        Some(k) => if k < 0 {
            0
        } else {
            k
        },
        None => return Err(QueryError::type_error("REPEAT count must be an integer")),
    };
    let mut out: Vec<char> = Vec::new();
    let mut i: i64 = 0;
    while i < count
        invariant
            0 <= i <= count,
            out@ == repeated(text@, i as nat),
        decreases count - i,
    {
        push_str(&mut out, text.as_str());
        i = i + 1;
    }
    Ok(Value::Text(string_from_chars(&out)))
}

/// `UPPER(s)` and `LOWER(s)`.
pub open spec fn case_value(d: Datum, upper: bool) -> Result<Datum, Fault> {
    match d {
        Datum::Null => Ok(Datum::Null),
        Datum::Text(s) => Ok(
            Datum::Text(
                if upper {
                    uppercased(s)
                } else {
                    lowercased(s)
                },
            ),
        ),
        _ => Err(Fault::Type("case folding a non-text value "@ + shown(d))),
    }
}

/// Upper- or lower-case a text value.
pub fn eval_case(v: Value, upper: bool) -> (r: Result<Value, QueryError>)
    ensures
        agrees(r, case_value(v@, upper)),
{
    match v {
        Value::Null => Ok(Value::Null),
        Value::Text(s) => Ok(
            Value::Text(
                if upper {
                    to_uppercase(s.as_str())
                } else {
                    to_lowercase(s.as_str())
                },
            ),
        ),
        _ => Err(QueryError::type_over("case folding a non-text value ", &v)),
    }
}

/// `NULLIF(a, b)`: null where the two are equal, else the first.
pub open spec fn nullif_value(a: Datum, b: Datum, table: Seq<(Question, Answer)>) -> Result<
    Datum,
    Fault,
> {
    match values_same(a, b, table) {
        Ok(same) => Ok(
            if same {
                Datum::Null
            } else {
                a
            },
        ),
        Err(e) => Err(e),
    }
}

/// `NULLIF` evaluation.
pub fn eval_nullif(a: Value, b: Value, answers: &Answers) -> (r: Result<Value, QueryError>)
    ensures
        agrees(r, nullif_value(a@, b@, answers@)),
{
    match values_eq(&a, &b, answers) {
        Ok(same) => if same {
            Ok(Value::Null)
        } else {
            Ok(a)
        },
        Err(e) => Err(e),
    }
}

/// Negating twice gives the number back, where it can be negated.
pub proof fn law_double_negation(d: Datum)
    requires
        neg_value(d) is Ok,
    ensures
        neg_value(neg_value(d)->Ok_0) == Ok::<Datum, Fault>(d),
{
}

/// An absolute value is its own absolute value.
pub proof fn law_abs_idempotent(d: Datum)
    requires
        abs_value(d) is Ok,
    ensures
        abs_value(abs_value(d)->Ok_0) == abs_value(d),
{
}

} // verus!
