//! Values as they stand in the texts of errors: the name of the type, with the contents in
//! brackets. A float stands there by its bit pattern, as everywhere in the engine.

use vstd::prelude::*;

use crate::storage::decimal::decimal_text;
use crate::storage::json::json_debugged;
use crate::storage::temporal::{quote, quoted};
use crate::storage::text::{
    int_text, int_to_text, lemma_strung_four, numeral_of, push_str, string_from_chars,
    string_together, strung,
};
use crate::storage::types::{data_of, lemma_array_view, Datum, Interval, Value};
use crate::storage::uuid::uuid_text;

verus! {

/// A type's name with contents in brackets.
pub open spec fn labelled(name: Seq<char>, contents: Seq<char>) -> Seq<char> {
    name + "("@ + contents + ")"@
}

/// Numbers, separated by commas.
pub open spec fn bytes_listed(b: Seq<u8>) -> Seq<char>
    decreases b.len(),
{
    if b.len() == 0 {
        Seq::empty()
    } else if b.len() == 1 {
        int_text(b[0] as int)
    } else {
        bytes_listed(b.drop_last()) + ", "@ + int_text(b.last() as int)
    }
}

/// An interval by its components.
pub open spec fn interval_shown(i: Interval) -> Seq<char> {
    "Interval { months: "@ + int_text(i.months as int) + ", days: "@ + int_text(i.days as int)
        + ", micros: "@ + int_text(i.micros as int) + " }"@
}

/// A value in the text of an error.
pub open spec fn shown(d: Datum) -> Seq<char>
    decreases d, 0nat,
{
    match d {
        Datum::Null => "Null"@,
        Datum::Bool(b) => if b {
            "Bool(true)"@
        } else {
            "Bool(false)"@
        },
        Datum::Int16(n) => labelled("Int16"@, int_text(n as int)),
        Datum::Int32(n) => labelled("Int32"@, int_text(n as int)),
        Datum::Int64(n) => labelled("Int64"@, int_text(n as int)),
        Datum::Text(s) => labelled("Text"@, quoted(s)),
        Datum::Bytes(b) => labelled("Bytes"@, "["@ + bytes_listed(b) + "]"@),
        Datum::Json(s) => labelled("Json"@, json_debugged(s)),
        Datum::Date(n) => labelled("Date"@, int_text(n as int)),
        Datum::Timestamp(n) => labelled("Timestamp"@, int_text(n as int)),
        Datum::Float32(f) => labelled("Float32"@, "bits "@ + int_text(f.bits as int)),
        Datum::Float64(f) => labelled("Float64"@, "bits "@ + int_text(f.bits as int)),
        Datum::Numeric(p) => labelled(
            "Numeric"@,
            decimal_text(p.negative, p.coefficient, p.scale),
        ),
        Datum::Time(n) => labelled("Time"@, int_text(n as int)),
        Datum::Uuid(u) => labelled("Uuid"@, uuid_text(u.value)),
        Datum::Interval(i) => labelled("Interval"@, interval_shown(i)),
        Datum::Array(items) => labelled("Array"@, "["@ + listed(items, items.len()) + "]"@),
    }
}

/// The first `n` of some values, separated by commas.
pub open spec fn listed(items: Seq<Datum>, n: nat) -> Seq<char>
    decreases items, n,
{
    if n == 0 || n > items.len() {
        Seq::empty()
    } else if n == 1 {
        shown(items[0])
    } else {
        listed(items, (n - 1) as nat) + ", "@ + shown(items[n - 1])
    }
}

fn label(name: &str, contents: &str) -> (r: String)
    ensures
        r@ == labelled(name@, contents@),
{
    let parts = vec![name, "(", contents, ")"];
    proof {
        lemma_strung_four(parts@);
    }
    string_together(&parts)
}

fn label_int(name: &str, n: i64) -> (r: String)
    ensures
        r@ == labelled(name@, int_text(n as int)),
{
    let t = int_to_text(n);
    label(name, t.as_str())
}

fn label_bits(name: &str, bits: u64) -> (r: String)
    ensures
        r@ == labelled(name@, "bits "@ + int_text(bits as int)),
{
    let t = numeral_of(bits as i128);
    let mut out: Vec<char> = Vec::new();
    push_str(&mut out, "bits ");
    push_str(&mut out, t.as_str());
    assert(out@ =~= "bits "@ + int_text(bits as int));
    let contents = string_from_chars(&out);
    label(name, contents.as_str())
}

fn show_bytes(b: &Vec<u8>) -> (r: String)
    ensures
        r@ == labelled("Bytes"@, "["@ + bytes_listed(b@) + "]"@),
{
    let mut out: Vec<char> = Vec::new();
    push_str(&mut out, "[");
    let mut i: usize = 0;
    assert(out@ =~= "["@ + bytes_listed(b@.take(0)));
    while i < b.len()
        invariant
            i <= b@.len(),
            out@ == "["@ + bytes_listed(b@.take(i as int)),
        decreases b@.len() - i,
    {
        let ghost before = b@.take(i as int);
        let ghost after = b@.take(i + 1);
        assert(after.drop_last() =~= before && after.last() == b@[i as int]);
        let t = int_to_text(b[i] as i64);
        if i > 0 {
            push_str(&mut out, ", ");
            push_str(&mut out, t.as_str());
            assert(out@ =~= "["@ + (bytes_listed(before) + ", "@ + t@));
        } else {
            assert(bytes_listed(before) =~= Seq::<char>::empty());
            push_str(&mut out, t.as_str());
            assert(out@ =~= "["@ + t@);
        }
        i = i + 1;
    }
    assert(b@.take(i as int) =~= b@);
    push_str(&mut out, "]");
    let contents = string_from_chars(&out);
    label("Bytes", contents.as_str())
}

fn show_interval(i: &Interval) -> (r: String)
    ensures
        r@ == labelled("Interval"@, interval_shown(*i)),
{
    let months = int_to_text(i.months as i64);
    let days = int_to_text(i.days as i64);
    let micros = int_to_text(i.micros);
    let parts = vec![
        "Interval { months: ",
        months.as_str(),
        ", days: ",
        days.as_str(),
        ", micros: ",
        micros.as_str(),
        " }",
    ];
    proof {
        reveal_with_fuel(strung, 8);
        assert(strung(parts@) =~= interval_shown(*i));
    }
    let contents = string_together(&parts);
    label("Interval", contents.as_str())
}

/// A value in the text of an error.
pub fn show(v: &Value) -> (r: String)
    ensures
        r@ == shown(v@),
    decreases v,
{
    match v {
        Value::Null => "Null".to_owned(),
        Value::Bool(b) => if *b {
            "Bool(true)".to_owned()
        } else {
            "Bool(false)".to_owned()
        },
        Value::Int16(n) => label_int("Int16", *n as i64),
        Value::Int32(n) => label_int("Int32", *n as i64),
        Value::Int64(n) => label_int("Int64", *n),
        Value::Text(s) => {
            let q = quote(s.as_str());
            label("Text", q.as_str())
        },
        Value::Bytes(b) => show_bytes(b),
        Value::Json(j) => {
            let t = j.debugged();
            label("Json", t.as_str())
        },
        Value::Date(n) => label_int("Date", *n as i64),
        Value::Timestamp(n) => label_int("Timestamp", *n),
        Value::Float32(f) => label_bits("Float32", f.bits as u64),
        Value::Float64(f) => label_bits("Float64", f.bits),
        Value::Numeric(d) => {
            let t = d.to_text();
            label("Numeric", t.as_str())
        },
        Value::Time(n) => label_int("Time", *n),
        Value::Uuid(u) => {
            let t = u.to_text();
            label("Uuid", t.as_str())
        },
        Value::Interval(i) => show_interval(i),
        Value::Array(items) => {
            proof {
                lemma_array_view(*items);
            }
            let contents = show_items(items);
            label("Array", contents.as_str())
        },
    }
}

fn show_items(items: &Vec<Value>) -> (r: String)
    ensures
        r@ == "["@ + listed(data_of(items@), items@.len()) + "]"@,
    decreases items,
{
    let ghost data = data_of(items@);
    let mut out: Vec<char> = Vec::new();
    push_str(&mut out, "[");
    let mut i: usize = 0;
    assert(out@ =~= "["@ + listed(data, 0));
    while i < items.len()
        invariant
            i <= items@.len(),
            data == data_of(items@),
            out@ == "["@ + listed(data, i as nat),
        decreases items@.len() - i,
    {
        proof {
            assert(data[i as int] == items@[i as int]@);
            assert(decreases_to!(*items => items@[i as int]));
        }
        let ghost before = listed(data, i as nat);
        let t = show(&items[i]);
        if i > 0 {
            push_str(&mut out, ", ");
            push_str(&mut out, t.as_str());
            assert(out@ =~= "["@ + (before + ", "@ + t@));
        } else {
            assert(before =~= Seq::<char>::empty());
            push_str(&mut out, t.as_str());
            assert(out@ =~= "["@ + t@);
        }
        i = i + 1;
    }
    push_str(&mut out, "]");
    string_from_chars(&out)
}

} // verus!
