//! Logical types and runtime values for the SQL engine.
//!
//! A [`Value`] is modelled by a [`Datum`], its mathematical counterpart: strings and byte
//! strings become sequences, and two values are the same where their data are equal.
//!
//! Floating-point values are carried as their IEEE-754 bit patterns.

use vstd::prelude::*;

use crate::query::expression::{clone_opt_expr, opt_term, Expr, Term};
use crate::storage::decimal::{Decimal, DecimalParts};
use crate::storage::json::Json;
use crate::storage::text::{lemma_strung_three, string_together};

verus! {

/// A column type.
#[derive(Debug, PartialEq)]
pub enum LogicalType {
    Bool,
    Int16,
    Int32,
    Int64,
    Text,
    Bytes,
    Json,
    Date,
    Timestamp,
    Float32,
    Float64,
    Numeric,
    Time,
    Uuid,
    Interval,
    /// A one-dimensional array of the element type.
    Array(Box<LogicalType>),
}

impl Clone for LogicalType {
    fn clone(&self) -> (r: Self)
        ensures
            r == *self,
        decreases self,
    {
        match self {
            LogicalType::Bool => LogicalType::Bool,
            LogicalType::Int16 => LogicalType::Int16,
            LogicalType::Int32 => LogicalType::Int32,
            LogicalType::Int64 => LogicalType::Int64,
            LogicalType::Text => LogicalType::Text,
            LogicalType::Bytes => LogicalType::Bytes,
            LogicalType::Json => LogicalType::Json,
            LogicalType::Date => LogicalType::Date,
            LogicalType::Timestamp => LogicalType::Timestamp,
            LogicalType::Float32 => LogicalType::Float32,
            LogicalType::Float64 => LogicalType::Float64,
            LogicalType::Numeric => LogicalType::Numeric,
            LogicalType::Time => LogicalType::Time,
            LogicalType::Uuid => LogicalType::Uuid,
            LogicalType::Interval => LogicalType::Interval,
            LogicalType::Array(e) => {
                let inner: LogicalType = (&**e).clone();
                LogicalType::Array(Box::new(inner))
            },
        }
    }
}

/// The name of a type.
pub open spec fn name_of_type(ty: LogicalType) -> Seq<char>
    decreases ty,
{
    match ty {
        LogicalType::Bool => "Bool"@,
        LogicalType::Int16 => "Int16"@,
        LogicalType::Int32 => "Int32"@,
        LogicalType::Int64 => "Int64"@,
        LogicalType::Text => "Text"@,
        LogicalType::Bytes => "Bytes"@,
        LogicalType::Json => "Json"@,
        LogicalType::Date => "Date"@,
        LogicalType::Timestamp => "Timestamp"@,
        LogicalType::Float32 => "Float32"@,
        LogicalType::Float64 => "Float64"@,
        LogicalType::Numeric => "Numeric"@,
        LogicalType::Time => "Time"@,
        LogicalType::Uuid => "Uuid"@,
        LogicalType::Interval => "Interval"@,
        LogicalType::Array(e) => "Array("@ + name_of_type(*e) + ")"@,
    }
}

impl LogicalType {
    /// The type's name.
    pub fn name(&self) -> (r: String)
        ensures
            r@ == name_of_type(*self),
        decreases self,
    {
        match self {
            LogicalType::Bool => "Bool".to_owned(),
            LogicalType::Int16 => "Int16".to_owned(),
            LogicalType::Int32 => "Int32".to_owned(),
            LogicalType::Int64 => "Int64".to_owned(),
            LogicalType::Text => "Text".to_owned(),
            LogicalType::Bytes => "Bytes".to_owned(),
            LogicalType::Json => "Json".to_owned(),
            LogicalType::Date => "Date".to_owned(),
            LogicalType::Timestamp => "Timestamp".to_owned(),
            LogicalType::Float32 => "Float32".to_owned(),
            LogicalType::Float64 => "Float64".to_owned(),
            LogicalType::Numeric => "Numeric".to_owned(),
            LogicalType::Time => "Time".to_owned(),
            LogicalType::Uuid => "Uuid".to_owned(),
            LogicalType::Interval => "Interval".to_owned(),
            LogicalType::Array(e) => {
                let inner = e.name();
                let parts = vec!["Array(", inner.as_str(), ")"];
                let r = string_together(&parts);
                proof {
                    lemma_strung_three(parts@);
                }
                r
            },
        }
    }
}

/// A 32-bit float, by its bit pattern. `==` is IEEE equality.
#[derive(Debug, Clone, Copy)]
pub struct Float32 {
    pub bits: u32,
}

/// A 64-bit float, by its bit pattern. `==` is IEEE equality.
#[derive(Debug, Clone, Copy)]
pub struct Float64 {
    pub bits: u64,
}

/// A UUID: its sixteen bytes read as one big-endian number.
#[derive(Debug, Clone, Copy, PartialEq, Eq, Structural)]
pub struct Uuid {
    pub value: u128,
}

/// A SQL `INTERVAL`: three independent components. Comparison and the order-preserving key
/// use [`Interval::to_micros`].
#[derive(Debug, Clone, Copy, PartialEq, Eq, Structural)]
pub struct Interval {
    pub months: i32,
    pub days: i32,
    pub micros: i64,
}

/// Microseconds in a day of 24 hours.
pub const MICROS_PER_DAY: i64 = 86_400_000_000;

impl Interval {
    /// The interval as one count of microseconds: months of 30 days, days of 24 hours.
    pub open spec fn total_micros(self) -> int {
        (self.months * 30 + self.days) * MICROS_PER_DAY + self.micros
    }

    /// Normalize to a single microsecond count, for comparison and ordering.
    pub fn to_micros(self) -> (r: i128)
        ensures
            r == self.total_micros(),
    {
        let whole: i128 = self.months as i128 * 30 + self.days as i128;
        whole * 86_400_000_000 + self.micros as i128
    }
}

/// A single runtime datum. `Null` is in-band.
#[derive(Debug, PartialEq)]
pub enum Value {
    Null,
    Bool(bool),
    Int16(i16),
    Int32(i32),
    Int64(i64),
    Text(String),
    Bytes(Vec<u8>),
    Json(Json),
    /// Days since 1970-01-01.
    Date(i32),
    /// Microseconds since 1970-01-01 00:00 UTC.
    Timestamp(i64),
    Float32(Float32),
    Float64(Float64),
    Numeric(Decimal),
    /// Microseconds since midnight.
    Time(i64),
    Uuid(Uuid),
    Interval(Interval),
    /// A one-dimensional array.
    Array(Vec<Value>),
}

/// What a [`Value`] is, mathematically.
#[verifier::ext_equal]
pub enum Datum {
    Null,
    Bool(bool),
    Int16(i16),
    Int32(i32),
    Int64(i64),
    Text(Seq<char>),
    Bytes(Seq<u8>),
    Json(Seq<char>),
    Date(i32),
    Timestamp(i64),
    Float32(Float32),
    Float64(Float64),
    Numeric(DecimalParts),
    Time(i64),
    Uuid(Uuid),
    Interval(Interval),
    Array(Seq<Datum>),
}

impl View for Value {
    type V = Datum;

    open spec fn view(&self) -> Datum
        decreases self,
    {
        match self {
            Value::Null => Datum::Null,
            Value::Bool(b) => Datum::Bool(*b),
            Value::Int16(n) => Datum::Int16(*n),
            Value::Int32(n) => Datum::Int32(*n),
            Value::Int64(n) => Datum::Int64(*n),
            Value::Text(s) => Datum::Text(s@),
            Value::Bytes(b) => Datum::Bytes(b@),
            Value::Json(j) => Datum::Json(j@),
            Value::Date(n) => Datum::Date(*n),
            Value::Timestamp(n) => Datum::Timestamp(*n),
            Value::Float32(f) => Datum::Float32(*f),
            Value::Float64(f) => Datum::Float64(*f),
            Value::Numeric(d) => Datum::Numeric(d@),
            Value::Time(n) => Datum::Time(*n),
            Value::Uuid(u) => Datum::Uuid(*u),
            Value::Interval(i) => Datum::Interval(*i),
            Value::Array(items) => Datum::Array(
                Seq::new(
                    items@.len(),
                    |i: int|
                        if 0 <= i < items@.len() {
                            items@[i].view()
                        } else {
                            Datum::Null
                        },
                ),
            ),
        }
    }
}

/// The data of a sequence of values.
pub open spec fn data_of(items: Seq<Value>) -> Seq<Datum> {
    Seq::new(items.len(), |i: int| items[i]@)
}

/// The datum of an array value is the sequence of its elements' data.
pub proof fn lemma_array_view(items: Vec<Value>)
    ensures
        Value::Array(items)@ == Datum::Array(data_of(items@)),
{
    reveal_with_fuel(<Value as View>::view, 2);
    let v = Value::Array(items);
    let a = v@->Array_0;
    let b = data_of(items@);
    assert forall|i: int| 0 <= i < a.len() implies a[i] == b[i] by {
        assert(a[i] == items@[i]@);
    }
    assert(a =~= b);
}

/// A copy of each value.
pub fn clone_values(items: &Vec<Value>) -> (r: Vec<Value>)
    ensures
        data_of(r@) == data_of(items@),
    decreases items,
{
    let mut out: Vec<Value> = Vec::new();
    let mut i: usize = 0;
    while i < items.len()
        invariant
            i <= items@.len(),
            out@.len() == i,
            forall|j: int| 0 <= j < i ==> (#[trigger] out@[j])@ == items@[j]@,
        decreases items@.len() - i,
    {
        assert(decreases_to!(*items => items@[i as int]));
        let v: Value = items[i].clone();
        out.push(v);
        i = i + 1;
    }
    assert(data_of(out@) =~= data_of(items@));
    out
}

impl Clone for Value {
    fn clone(&self) -> (r: Self)
        ensures
            r@ == self@,
        decreases self,
    {
        match self {
            Value::Null => Value::Null,
            Value::Bool(b) => Value::Bool(*b),
            Value::Int16(n) => Value::Int16(*n),
            Value::Int32(n) => Value::Int32(*n),
            Value::Int64(n) => Value::Int64(*n),
            Value::Text(s) => Value::Text(s.clone()),
            Value::Bytes(b) => Value::Bytes(crate::storage::bytes::copy_bytes(b.as_slice())),
            Value::Json(j) => Value::Json(j.clone()),
            Value::Date(n) => Value::Date(*n),
            Value::Timestamp(n) => Value::Timestamp(*n),
            Value::Float32(f) => Value::Float32(*f),
            Value::Float64(f) => Value::Float64(*f),
            Value::Numeric(d) => Value::Numeric(*d),
            Value::Time(n) => Value::Time(*n),
            Value::Uuid(u) => Value::Uuid(*u),
            Value::Interval(i) => Value::Interval(*i),
            Value::Array(items) => {
                let out = clone_values(items);
                proof {
                    lemma_array_view(out);
                    lemma_array_view(*items);
                }
                Value::Array(out)
            },
        }
    }
}

impl Value {
    /// Whether this is `Null`.
    pub fn is_null(&self) -> (r: bool)
        ensures
            r == (self@ is Null),
    {
        match self {
            Value::Null => true,
            _ => false,
        }
    }

    /// A text value.
    pub fn text(s: &str) -> (r: Value)
        ensures
            r@ == Datum::Text(s@),
    {
        Value::Text(s.to_owned())
    }
}

impl From<bool> for Value {
    fn from(v: bool) -> (r: Value) {
        Value::Bool(v)
    }
}

impl vstd::std_specs::convert::FromSpecImpl<bool> for Value {
    open spec fn obeys_from_spec() -> bool {
        true
    }

    open spec fn from_spec(v: bool) -> Value {
        Value::Bool(v)
    }
}

impl From<i16> for Value {
    fn from(v: i16) -> (r: Value) {
        Value::Int16(v)
    }
}

impl vstd::std_specs::convert::FromSpecImpl<i16> for Value {
    open spec fn obeys_from_spec() -> bool {
        true
    }

    open spec fn from_spec(v: i16) -> Value {
        Value::Int16(v)
    }
}

impl From<i32> for Value {
    fn from(v: i32) -> (r: Value) {
        Value::Int32(v)
    }
}

impl vstd::std_specs::convert::FromSpecImpl<i32> for Value {
    open spec fn obeys_from_spec() -> bool {
        true
    }

    open spec fn from_spec(v: i32) -> Value {
        Value::Int32(v)
    }
}

impl From<i64> for Value {
    fn from(v: i64) -> (r: Value) {
        Value::Int64(v)
    }
}

impl vstd::std_specs::convert::FromSpecImpl<i64> for Value {
    open spec fn obeys_from_spec() -> bool {
        true
    }

    open spec fn from_spec(v: i64) -> Value {
        Value::Int64(v)
    }
}

impl From<String> for Value {
    fn from(v: String) -> (r: Value) {
        Value::Text(v)
    }
}

impl vstd::std_specs::convert::FromSpecImpl<String> for Value {
    open spec fn obeys_from_spec() -> bool {
        true
    }

    open spec fn from_spec(v: String) -> Value {
        Value::Text(v)
    }
}

impl From<&str> for Value {
    fn from(v: &str) -> (r: Value)
        ensures
            r@ == Datum::Text(v@),
    {
        Value::text(v)
    }
}

/// Which `String` comes of a `str` is known by its characters alone: see the clause of `from`.
impl vstd::std_specs::convert::FromSpecImpl<&str> for Value {
    open spec fn obeys_from_spec() -> bool {
        false
    }

    open spec fn from_spec(v: &str) -> Value {
        Value::Null
    }
}

/// An ordered row of values.
#[derive(Debug, PartialEq)]
pub struct Tuple {
    pub values: Vec<Value>,
}

impl View for Tuple {
    type V = Seq<Datum>;

    open spec fn view(&self) -> Seq<Datum> {
        data_of(self.values@)
    }
}

impl Clone for Tuple {
    fn clone(&self) -> (r: Self)
        ensures
            r@ == self@,
    {
        Tuple { values: clone_values(&self.values) }
    }
}

/// The rows of a sequence of tuples.
pub open spec fn rows_of(tuples: Seq<Tuple>) -> Seq<Seq<Datum>> {
    Seq::new(tuples.len(), |i: int| tuples[i]@)
}

/// A copy of each row.
pub fn clone_rows(rows: &Vec<Tuple>) -> (r: Vec<Tuple>)
    ensures
        rows_of(r@) == rows_of(rows@),
{
    let mut out: Vec<Tuple> = Vec::new();
    let mut i: usize = 0;
    while i < rows.len()
        invariant
            i <= rows@.len(),
            out@.len() == i,
            forall|j: int| 0 <= j < i ==> (#[trigger] out@[j])@ == rows@[j]@,
        decreases rows@.len() - i,
    {
        out.push(rows[i].clone());
        i = i + 1;
    }
    assert(rows_of(out@) =~= rows_of(rows@));
    out
}

/// A column's name.
#[derive(Debug)]
pub struct FieldName(String);

impl View for FieldName {
    type V = Seq<char>;

    closed spec fn view(&self) -> Seq<char> {
        self.0@
    }
}

impl FieldName {
    pub fn new(name: &str) -> (r: Self)
        ensures
            r@ == name@,
    {
        FieldName(name.to_owned())
    }

    pub fn as_str(&self) -> (r: &str)
        ensures
            r@ == self@,
    {
        self.0.as_str()
    }
}

impl Clone for FieldName {
    fn clone(&self) -> (r: Self)
        ensures
            r@ == self@,
    {
        FieldName(self.0.clone())
    }
}

/// A named, typed column.
#[derive(Debug)]
pub struct Field {
    pub name: FieldName,
    pub ty: LogicalType,
    pub nullable: bool,
    /// The bound `DEFAULT` expression, which refers to no column; `None` means no default.
    pub default: Option<Expr>,
}

/// What a [`Field`] is, mathematically.
pub struct FieldModel {
    pub name: Seq<char>,
    pub ty: LogicalType,
    pub nullable: bool,
    pub default: Option<Term>,
}

impl View for Field {
    type V = FieldModel;

    open spec fn view(&self) -> FieldModel {
        FieldModel {
            name: self.name@,
            ty: self.ty,
            nullable: self.nullable,
            default: opt_term(self.default),
        }
    }
}

impl Field {
    /// A nullable field of the given type, without a default.
    pub fn new(name: &str, ty: LogicalType) -> (r: Self)
        ensures
            r@ == (FieldModel { name: name@, ty, nullable: true, default: None }),
    {
        Field { name: FieldName::new(name), ty, nullable: true, default: None }
    }
}

impl Clone for Field {
    fn clone(&self) -> (r: Self)
        ensures
            r@ == self@,
    {
        Field {
            name: self.name.clone(),
            ty: self.ty.clone(),
            nullable: self.nullable,
            default: clone_opt_expr(&self.default),
        }
    }
}

/// The models of a sequence of fields.
pub open spec fn fields_of(fields: Seq<Field>) -> Seq<FieldModel> {
    Seq::new(fields.len(), |i: int| fields[i]@)
}

/// A copy of each field.
pub fn clone_fields(fields: &Vec<Field>) -> (r: Vec<Field>)
    ensures
        fields_of(r@) == fields_of(fields@),
{
    let mut out: Vec<Field> = Vec::new();
    let mut i: usize = 0;
    while i < fields.len()
        invariant
            i <= fields@.len(),
            out@.len() == i,
            forall|j: int| 0 <= j < i ==> (#[trigger] out@[j])@ == fields@[j]@,
        decreases fields@.len() - i,
    {
        out.push(fields[i].clone());
        i = i + 1;
    }
    assert(fields_of(out@) =~= fields_of(fields@));
    out
}

/// The shape of a table: its columns, in order.
#[derive(Debug)]
pub struct Schema {
    pub fields: Vec<Field>,
}

impl View for Schema {
    type V = Seq<FieldModel>;

    open spec fn view(&self) -> Seq<FieldModel> {
        fields_of(self.fields@)
    }
}

impl Schema {
    pub fn new(fields: Vec<Field>) -> (r: Self)
        ensures
            r@ == fields_of(fields@),
    {
        Schema { fields }
    }
}

impl Clone for Schema {
    fn clone(&self) -> (r: Self)
        ensures
            r@ == self@,
    {
        Schema { fields: clone_fields(&self.fields) }
    }
}

} // verus!
