//! What an expression needs from the host.
//!
//! Arithmetic on floating-point numbers, and the text forms of floats, timestamps, times and
//! intervals, are the host's. An evaluation reads the host's answers out of a table; where an
//! answer is missing it stops and names the question. The host answers it and evaluates again.

use vstd::prelude::*;

use crate::query::error::{agrees, Fault, QueryError};
use crate::storage::decimal::{Decimal, DecimalParts};
use crate::storage::text::str_eq;
use crate::storage::types::{Float32, Float64, Interval};

verus! {

/// A question to the host.
#[derive(Debug)]
pub enum HostOp {
    /// The nearest 64-bit float to an integer.
    FloatOfInt(i64),
    /// The 64-bit float of a decimal, where it has one.
    FloatOfNumeric(Decimal),
    /// The nearest 32-bit float to a 64-bit one.
    Narrow(Float64),
    /// The decimal of a 32-bit float, all its digits kept, where it has one.
    NumericOfFloat32(Float32),
    /// The decimal of a 64-bit float, all its digits kept, where it has one.
    NumericOfFloat64(Float64),
    /// A float rounded up, down, or to the nearest whole number with halves away from zero.
    Ceil(Float64),
    Floor(Float64),
    Round(Float64),
    /// The float that a text spells, where it spells one.
    ParseFloat(String),
    /// The text of a float.
    ShowFloat32(Float32),
    ShowFloat64(Float64),
    /// The instant, time of day or interval that a text names, or a complaint where it names
    /// none.
    ParseTimestamp(String),
    ParseTime(String),
    ParseInterval(String),
    /// The text of an instant, a time of day or an interval.
    ShowTimestamp(i64),
    ShowTime(i64),
    ShowInterval(Interval),
}

/// An answer of the host.
#[derive(Debug)]
pub enum HostAnswer {
    Float64(Float64),
    Float32(Float32),
    MaybeFloat64(Option<Float64>),
    MaybeNumeric(Option<Decimal>),
    ParsedInt(Result<i64, String>),
    ParsedInterval(Result<Interval, String>),
    Text(String),
}

/// What a [`HostOp`] is, mathematically.
pub enum Question {
    FloatOfInt(i64),
    FloatOfNumeric(DecimalParts),
    Narrow(Float64),
    NumericOfFloat32(Float32),
    NumericOfFloat64(Float64),
    Ceil(Float64),
    Floor(Float64),
    Round(Float64),
    ParseFloat(Seq<char>),
    ShowFloat32(Float32),
    ShowFloat64(Float64),
    ParseTimestamp(Seq<char>),
    ParseTime(Seq<char>),
    ParseInterval(Seq<char>),
    ShowTimestamp(i64),
    ShowTime(i64),
    ShowInterval(Interval),
}

/// What a [`HostAnswer`] is, mathematically.
pub enum Answer {
    Float64(Float64),
    Float32(Float32),
    MaybeFloat64(Option<Float64>),
    MaybeNumeric(Option<DecimalParts>),
    ParsedInt(Result<i64, Seq<char>>),
    ParsedInterval(Result<Interval, Seq<char>>),
    Text(Seq<char>),
}

impl View for HostOp {
    type V = Question;

    open spec fn view(&self) -> Question {
        match self {
            HostOp::FloatOfInt(n) => Question::FloatOfInt(*n),
            HostOp::FloatOfNumeric(d) => Question::FloatOfNumeric(d@),
            HostOp::Narrow(f) => Question::Narrow(*f),
            HostOp::NumericOfFloat32(f) => Question::NumericOfFloat32(*f),
            HostOp::NumericOfFloat64(f) => Question::NumericOfFloat64(*f),
            HostOp::Ceil(f) => Question::Ceil(*f),
            HostOp::Floor(f) => Question::Floor(*f),
            HostOp::Round(f) => Question::Round(*f),
            HostOp::ParseFloat(s) => Question::ParseFloat(s@),
            HostOp::ShowFloat32(f) => Question::ShowFloat32(*f),
            HostOp::ShowFloat64(f) => Question::ShowFloat64(*f),
            HostOp::ParseTimestamp(s) => Question::ParseTimestamp(s@),
            HostOp::ParseTime(s) => Question::ParseTime(s@),
            HostOp::ParseInterval(s) => Question::ParseInterval(s@),
            HostOp::ShowTimestamp(t) => Question::ShowTimestamp(*t),
            HostOp::ShowTime(t) => Question::ShowTime(*t),
            HostOp::ShowInterval(i) => Question::ShowInterval(*i),
        }
    }
}

impl View for HostAnswer {
    type V = Answer;

    open spec fn view(&self) -> Answer {
        match self {
            HostAnswer::Float64(f) => Answer::Float64(*f),
            HostAnswer::Float32(f) => Answer::Float32(*f),
            HostAnswer::MaybeFloat64(f) => Answer::MaybeFloat64(*f),
            HostAnswer::MaybeNumeric(d) => Answer::MaybeNumeric(
                match d {
                    Some(d) => Some(d@),
                    None => None,
                },
            ),
            HostAnswer::ParsedInt(n) => Answer::ParsedInt(
                match n {
                    Ok(n) => Ok(*n),
                    Err(words) => Err(words@),
                },
            ),
            HostAnswer::ParsedInterval(i) => Answer::ParsedInterval(
                match i {
                    Ok(i) => Ok(*i),
                    Err(words) => Err(words@),
                },
            ),
            HostAnswer::Text(s) => Answer::Text(s@),
        }
    }
}

/// Whether two decimals have one sign, coefficient and scale.
fn same_parts(a: &Decimal, b: &Decimal) -> (r: bool)
    ensures
        r == (a@ == b@),
{
    let x = a.parts();
    let y = b.parts();
    x.0 == y.0 && x.1 == y.1 && x.2 == y.2
}

impl HostOp {
    /// Whether two questions are the same.
    pub fn same(&self, other: &HostOp) -> (r: bool)
        ensures
            r == (self@ == other@),
    {
        match (self, other) {
            (HostOp::FloatOfInt(a), HostOp::FloatOfInt(b)) => *a == *b,
            (HostOp::FloatOfNumeric(a), HostOp::FloatOfNumeric(b)) => same_parts(a, b),
            (HostOp::Narrow(a), HostOp::Narrow(b)) => a.bits == b.bits,
            (HostOp::NumericOfFloat32(a), HostOp::NumericOfFloat32(b)) => a.bits == b.bits,
            (HostOp::NumericOfFloat64(a), HostOp::NumericOfFloat64(b)) => a.bits == b.bits,
            (HostOp::Ceil(a), HostOp::Ceil(b)) => a.bits == b.bits,
            (HostOp::Floor(a), HostOp::Floor(b)) => a.bits == b.bits,
            (HostOp::Round(a), HostOp::Round(b)) => a.bits == b.bits,
            (HostOp::ParseFloat(a), HostOp::ParseFloat(b)) => str_eq(a.as_str(), b.as_str()),
            (HostOp::ShowFloat32(a), HostOp::ShowFloat32(b)) => a.bits == b.bits,
            (HostOp::ShowFloat64(a), HostOp::ShowFloat64(b)) => a.bits == b.bits,
            (HostOp::ParseTimestamp(a), HostOp::ParseTimestamp(b)) => str_eq(
                a.as_str(),
                b.as_str(),
            ),
            (HostOp::ParseTime(a), HostOp::ParseTime(b)) => str_eq(a.as_str(), b.as_str()),
            (HostOp::ParseInterval(a), HostOp::ParseInterval(b)) => str_eq(a.as_str(), b.as_str()),
            (HostOp::ShowTimestamp(a), HostOp::ShowTimestamp(b)) => *a == *b,
            (HostOp::ShowTime(a), HostOp::ShowTime(b)) => *a == *b,
            (HostOp::ShowInterval(a), HostOp::ShowInterval(b)) => a.months == b.months && a.days
                == b.days && a.micros == b.micros,
            _ => false,
        }
    }
}

/// The host's answers so far.
#[derive(Debug)]
pub struct Answers {
    pub entries: Vec<(HostOp, HostAnswer)>,
}

/// What the table says of a question: the first entry for it.
pub open spec fn answer_to(table: Seq<(Question, Answer)>, q: Question) -> Option<Answer>
    decreases table.len(),
{
    if table.len() == 0 {
        None
    } else if table[0].0 == q {
        Some(table[0].1)
    } else {
        answer_to(table.drop_first(), q)
    }
}

impl View for Answers {
    type V = Seq<(Question, Answer)>;

    open spec fn view(&self) -> Seq<(Question, Answer)> {
        Seq::new(self.entries@.len(), |i: int| (self.entries@[i].0@, self.entries@[i].1@))
    }
}

impl Answers {
    /// No answers yet.
    pub fn new() -> (r: Self)
        ensures
            r@ == Seq::<(Question, Answer)>::empty(),
    {
        let r = Answers { entries: Vec::new() };
        assert(r@ =~= Seq::<(Question, Answer)>::empty());
        r
    }

    /// Record an answer.
    pub fn record(&mut self, op: HostOp, answer: HostAnswer)
        ensures
            final(self)@ == old(self)@.push((op@, answer@)),
    {
        let ghost before = self@;
        self.entries.push((op, answer));
        assert(self@ =~= before.push((op@, answer@)));
    }

    /// The answer to a question, where there is one.
    pub fn find(&self, op: &HostOp) -> (r: Option<&HostAnswer>)
        ensures
            r is Some <==> answer_to(self@, op@) is Some,
            r is Some ==> r->0@ == answer_to(self@, op@)->0,
    {
        let mut i: usize = 0;
        assert(self@.skip(0) =~= self@);
        while i < self.entries.len()
            invariant
                i <= self.entries@.len(),
                answer_to(self@, op@) == answer_to(self@.skip(i as int), op@),
            decreases self.entries@.len() - i,
        {
            if self.entries[i].0.same(op) {
                assert(self@.skip(i as int)[0] == self@[i as int]);
                return Some(&self.entries[i].1);
            }
            assert(self@.skip(i as int)[0] == self@[i as int]);
            assert(self@.skip(i as int).drop_first() =~= self@.skip(i + 1));
            i = i + 1;
        }
        assert(self@.skip(i as int) =~= Seq::<(Question, Answer)>::empty());
        None
    }
}

// --- reading answers of the kind a question calls for ---

/// The answer to a question that calls for a float; the question itself where there is none.
pub open spec fn asked_float(table: Seq<(Question, Answer)>, q: Question) -> Result<Float64, Fault> {
    match answer_to(table, q) {
        Some(Answer::Float64(f)) => Ok(f),
        _ => Err(Fault::Host(q)),
    }
}

/// Read a float off the host's answers.
pub fn ask_float(answers: &Answers, op: HostOp) -> (r: Result<Float64, QueryError>)
    ensures
        agrees(r, asked_float(answers@, op@)),
{
    match answers.find(&op) {
        Some(HostAnswer::Float64(f)) => Ok(*f),
        _ => Err(QueryError::Host(op)),
    }
}

/// The answer to a question that calls for a 32-bit float; the question itself where there is none.
pub open spec fn asked_float32(table: Seq<(Question, Answer)>, q: Question) -> Result<Float32, Fault> {
    match answer_to(table, q) {
        Some(Answer::Float32(f)) => Ok(f),
        _ => Err(Fault::Host(q)),
    }
}

/// Read a 32-bit float off the host's answers.
pub fn ask_float32(answers: &Answers, op: HostOp) -> (r: Result<Float32, QueryError>)
    ensures
        agrees(r, asked_float32(answers@, op@)),
{
    match answers.find(&op) {
        Some(HostAnswer::Float32(f)) => Ok(*f),
        _ => Err(QueryError::Host(op)),
    }
}

/// The answer to a question that calls for a float or none; the question itself where there is none.
pub open spec fn asked_maybe_float(table: Seq<(Question, Answer)>, q: Question) -> Result<Option<Float64>, Fault> {
    match answer_to(table, q) {
        Some(Answer::MaybeFloat64(f)) => Ok(f),
        _ => Err(Fault::Host(q)),
    }
}

/// Read a float or none off the host's answers.
pub fn ask_maybe_float(answers: &Answers, op: HostOp) -> (r: Result<Option<Float64>, QueryError>)
    ensures
        agrees(r, asked_maybe_float(answers@, op@)),
{
    match answers.find(&op) {
        Some(HostAnswer::MaybeFloat64(f)) => Ok(*f),
        _ => Err(QueryError::Host(op)),
    }
}

/// The answer to a question that calls for a decimal or none; the question itself where there is none.
pub open spec fn asked_maybe_numeric(table: Seq<(Question, Answer)>, q: Question) -> Result<Option<DecimalParts>, Fault> {
    match answer_to(table, q) {
        Some(Answer::MaybeNumeric(d)) => Ok(d),
        _ => Err(Fault::Host(q)),
    }
}

/// Read a decimal or none off the host's answers.
pub fn ask_maybe_numeric(answers: &Answers, op: HostOp) -> (r: Result<Option<Decimal>, QueryError>)
    ensures
        match r {
            Ok(Some(d)) => asked_maybe_numeric(answers@, op@) == Ok::<Option<DecimalParts>, Fault>(
                Some(d@),
            ),
            Ok(None) => asked_maybe_numeric(answers@, op@) == Ok::<Option<DecimalParts>, Fault>(
                None,
            ),
            Err(e) => asked_maybe_numeric(answers@, op@) == Err::<Option<DecimalParts>, Fault>(e@),
        },
{
    match answers.find(&op) {
        Some(HostAnswer::MaybeNumeric(d)) => Ok(*d),
        _ => Err(QueryError::Host(op)),
    }
}

/// The answer to a question that calls for the integer that a text spells: a complaint is a type
/// error in the host's words. The question itself where there is no answer.
pub open spec fn asked_parsed_int(table: Seq<(Question, Answer)>, q: Question) -> Result<i64, Fault> {
    match answer_to(table, q) {
        Some(Answer::ParsedInt(Ok(n))) => Ok(n),
        Some(Answer::ParsedInt(Err(words))) => Err(Fault::Type(words)),
        _ => Err(Fault::Host(q)),
    }
}

/// Read the integer that a text spells off the host's answers.
pub fn ask_parsed_int(answers: &Answers, op: HostOp) -> (r: Result<i64, QueryError>)
    ensures
        agrees(r, asked_parsed_int(answers@, op@)),
{
    match answers.find(&op) {
        Some(HostAnswer::ParsedInt(Ok(n))) => Ok(*n),
        Some(HostAnswer::ParsedInt(Err(words))) => Err(QueryError::Type(words.clone())),
        _ => Err(QueryError::Host(op)),
    }
}

/// The answer to a question that calls for the interval that a text spells: a complaint is a
/// type error in the host's words. The question itself where there is no answer.
pub open spec fn asked_parsed_interval(table: Seq<(Question, Answer)>, q: Question) -> Result<
    Interval,
    Fault,
> {
    match answer_to(table, q) {
        Some(Answer::ParsedInterval(Ok(i))) => Ok(i),
        Some(Answer::ParsedInterval(Err(words))) => Err(Fault::Type(words)),
        _ => Err(Fault::Host(q)),
    }
}

/// Read the interval that a text spells off the host's answers.
pub fn ask_parsed_interval(answers: &Answers, op: HostOp) -> (r: Result<Interval, QueryError>)
    ensures
        agrees(r, asked_parsed_interval(answers@, op@)),
{
    match answers.find(&op) {
        Some(HostAnswer::ParsedInterval(Ok(i))) => Ok(*i),
        Some(HostAnswer::ParsedInterval(Err(words))) => Err(QueryError::Type(words.clone())),
        _ => Err(QueryError::Host(op)),
    }
}

/// The answer to a question that calls for a text; the question itself where there is none.
pub open spec fn asked_text(table: Seq<(Question, Answer)>, q: Question) -> Result<Seq<char>, Fault> {
    match answer_to(table, q) {
        Some(Answer::Text(s)) => Ok(s),
        _ => Err(Fault::Host(q)),
    }
}

/// Read a text off the host's answers.
pub fn ask_text(answers: &Answers, op: HostOp) -> (r: Result<String, QueryError>)
    ensures
        agrees(r, asked_text(answers@, op@)),
{
    match answers.find(&op) {
        Some(HostAnswer::Text(s)) => Ok(s.clone()),
        _ => Err(QueryError::Host(op)),
    }
}

/// An answer stands: recording more never changes it.
pub proof fn law_answers_are_kept(
    table: Seq<(Question, Answer)>,
    more: Seq<(Question, Answer)>,
    q: Question,
)
    ensures
        answer_to(table, q) is Some ==> answer_to(table + more, q) == answer_to(table, q),
    decreases table.len(),
{
    if table.len() > 0 {
        assert((table + more)[0] == table[0]);
        assert((table + more).drop_first() =~= table.drop_first() + more);
        law_answers_are_kept(table.drop_first(), more, q);
    }
}

} // verus!
