//! What casts keep: values that go to another type and back, and texts that spell values.

use vstd::prelude::*;

use super::cast::{
    bool_text, cast_bool, cast_date, cast_int, cast_text, cast_value, hex_char, hex_text,
    joined_text, text_of,
};
use super::value_laws::{number, truth};
use crate::query::error::Fault;
use crate::query::host::{
    asked_float, asked_float32, asked_parsed_int, asked_parsed_interval, asked_text, Answer,
    Question,
};
use crate::storage::decimal::{
    decimal_parsed, decimal_text, lemma_pow10_positive, pow10, DecimalParts,
};
use crate::storage::float::widened;
use crate::storage::temporal::{date_parsed, date_text, in_calendar};
use crate::storage::text::{
    digit_char, digit_value, digits, digits_value, i64_parsed, int_parsed, int_text, is_digit,
    is_numeral, is_space, lowercased, nat_text, strip_end, strip_start, trimmed,
};
use crate::storage::types::{Datum, LogicalType, MICROS_PER_DAY};
use crate::storage::uuid::{uuid_parsed, uuid_text};

verus! {

// --- blanks ---

/// Whether a text is made of white space alone.
pub open spec fn is_blank(s: Seq<char>) -> bool {
    forall|i: int| 0 <= i < s.len() ==> is_space(#[trigger] s[i])
}

/// Whether a text is not empty, and neither starts nor ends with white space.
pub open spec fn is_tight(s: Seq<char>) -> bool {
    s.len() > 0 && !is_space(s[0]) && !is_space(s.last())
}

proof fn lemma_strip_front(p: Seq<char>, s: Seq<char>, drop: spec_fn(char) -> bool)
    requires
        forall|i: int| 0 <= i < p.len() ==> drop(#[trigger] p[i]),
        s.len() > 0,
        !drop(s[0]),
    ensures
        strip_start(p + s, drop) == s,
    decreases p.len(),
{
    let all = p + s;
    if p.len() > 0 {
        assert(all[0] == p[0]);
        assert(all.drop_first() =~= p.drop_first() + s);
        assert forall|i: int| 0 <= i < p.drop_first().len() implies drop(
            #[trigger] p.drop_first()[i],
        ) by {
            assert(p.drop_first()[i] == p[i + 1]);
        }
        lemma_strip_front(p.drop_first(), s, drop);
    } else {
        assert(all =~= s);
    }
}

proof fn lemma_strip_back(s: Seq<char>, q: Seq<char>, drop: spec_fn(char) -> bool)
    requires
        forall|i: int| 0 <= i < q.len() ==> drop(#[trigger] q[i]),
        s.len() > 0,
        !drop(s.last()),
    ensures
        strip_end(s + q, drop) == s,
    decreases q.len(),
{
    let all = s + q;
    if q.len() > 0 {
        assert(all.last() == q.last());
        assert(q.last() == q[q.len() - 1]);
        assert(all.drop_last() =~= s + q.drop_last());
        assert forall|i: int| 0 <= i < q.drop_last().len() implies drop(
            #[trigger] q.drop_last()[i],
        ) by {
            assert(q.drop_last()[i] == q[i]);
        }
        lemma_strip_back(s, q.drop_last(), drop);
    } else {
        assert(all =~= s);
    }
}

/// White space around a text does not count.
pub proof fn law_blanks_around_do_not_count(p: Seq<char>, w: Seq<char>, q: Seq<char>)
    requires
        is_blank(p),
        is_blank(q),
        is_tight(w),
    ensures
        trimmed(p + w + q) == w,
{
    let drop = |c: char| is_space(c);
    assert(p + w + q =~= p + (w + q));
    assert((w + q)[0] == w[0]);
    lemma_strip_front(p, w + q, drop);
    lemma_strip_back(w, q, drop);
}

// --- booleans ---

/// A text casts to true exactly where it is one of the words `true`, `t`, `yes`, `y`, `on` and
/// `1`, and to false exactly where it is one of `false`, `f`, `no`, `n`, `off` and `0`, whatever
/// its case and the white space around it. Any other text is a type error.
pub proof fn law_words_cast_to_booleans(
    p: Seq<char>,
    w: Seq<char>,
    q: Seq<char>,
    table: Seq<(Question, Answer)>,
)
    requires
        is_blank(p),
        is_blank(q),
        is_tight(w),
    ensures
        ({
            let r = cast_value(Datum::Text(p + w + q), LogicalType::Bool, table);
            let word = lowercased(w);
            &&& r == truth(true) <==> {
                ||| word == "true"@
                ||| word == "t"@
                ||| word == "yes"@
                ||| word == "y"@
                ||| word == "on"@
                ||| word == "1"@
            }
            &&& r == truth(false) <==> {
                ||| word == "false"@
                ||| word == "f"@
                ||| word == "no"@
                ||| word == "n"@
                ||| word == "off"@
                ||| word == "0"@
            }
            &&& r == truth(true) || r == truth(false) || (r is Err && r->Err_0 is Type)
        }),
{
    law_blanks_around_do_not_count(p, w, q);
    reveal_strlit("true");
    reveal_strlit("t");
    reveal_strlit("yes");
    reveal_strlit("y");
    reveal_strlit("on");
    reveal_strlit("1");
    reveal_strlit("false");
    reveal_strlit("f");
    reveal_strlit("no");
    reveal_strlit("n");
    reveal_strlit("off");
    reveal_strlit("0");
    let word = lowercased(w);
    assert(word == "true"@ ==> word.len() == 4);
    assert(word == "yes"@ ==> word.len() == 3);
    assert(word == "on"@ ==> word.len() == 2);
    assert(word == "t"@ ==> word.len() == 1 && word[0] == 't');
    assert(word == "y"@ ==> word.len() == 1 && word[0] == 'y');
    assert(word == "1"@ ==> word.len() == 1 && word[0] == '1');
    assert(word == "false"@ ==> word.len() == 5);
    assert(word == "off"@ ==> word.len() == 3 && word[0] == 'o');
    assert(word == "yes"@ ==> word[0] == 'y');
    assert(word == "no"@ ==> word.len() == 2 && word[0] == 'n');
    assert(word == "on"@ ==> word[0] == 'o');
    assert(word == "f"@ ==> word.len() == 1 && word[0] == 'f');
    assert(word == "n"@ ==> word.len() == 1 && word[0] == 'n');
    assert(word == "0"@ ==> word.len() == 1 && word[0] == '0');
}

/// A boolean is `t` or `f` as a text, and that text casts back to it: provided only that the
/// lower-case form of either letter is the letter.
pub proof fn law_booleans_survive_text(b: bool, table: Seq<(Question, Answer)>)
    ensures
        cast_value(Datum::Bool(b), LogicalType::Text, table) == Ok::<Datum, Fault>(
            Datum::Text(
                if b {
                    "t"@
                } else {
                    "f"@
                },
            ),
        ),
        lowercased("t"@) == "t"@ && lowercased("f"@) == "f"@ ==> cast_value(
            cast_value(Datum::Bool(b), LogicalType::Text, table)->Ok_0,
            LogicalType::Bool,
            table,
        ) == truth(b),
{
    reveal_strlit("t");
    reveal_strlit("f");
    assert(seq!['t'] =~= "t"@);
    assert(seq!['f'] =~= "f"@);
    let w = if b {
        "t"@
    } else {
        "f"@
    };
    let none = Seq::<char>::empty();
    assert(none + w + none =~= w);
    law_words_cast_to_booleans(none, w, none, table);
}

/// A boolean is one or zero as an integer and back, and an integer is true where it is not zero.
pub proof fn law_booleans_and_integers(
    b: bool,
    d: Datum,
    ty: LogicalType,
    table: Seq<(Question, Answer)>,
)
    requires
        ty is Int16 || ty is Int32 || ty is Int64,
    ensures
        ({
            let r = cast_value(Datum::Bool(b), ty, table);
            &&& r is Ok && number(r->Ok_0) == Some(
                if b {
                    1int
                } else {
                    0int
                },
            )
            &&& cast_value(r->Ok_0, LogicalType::Bool, table) == truth(b)
        }),
        number(d) is Some ==> cast_value(d, LogicalType::Bool, table) == truth(
            number(d) != Some(0int),
        ),
{
}

// --- integers ---

/// Whether a number is one of an integer type.
pub open spec fn in_type(ty: LogicalType, n: int) -> bool {
    match ty {
        LogicalType::Int16 => -0x8000 <= n <= 0x7fff,
        LogicalType::Int32 => -0x8000_0000 <= n <= 0x7fff_ffff,
        LogicalType::Int64 => -0x8000_0000_0000_0000 <= n <= 0x7fff_ffff_ffff_ffff,
        _ => false,
    }
}

/// Whether a value is of an integer type.
pub open spec fn of_type(d: Datum, ty: LogicalType) -> bool {
    (d is Int16 && ty is Int16) || (d is Int32 && ty is Int32) || (d is Int64 && ty is Int64)
}

/// An integer casts to an integer type as the same number, where the type has it, and is a type
/// error otherwise.
pub proof fn law_integer_casts_keep_the_number(
    d: Datum,
    ty: LogicalType,
    table: Seq<(Question, Answer)>,
)
    requires
        number(d) is Some,
        ty is Int16 || ty is Int32 || ty is Int64,
    ensures
        ({
            let r = cast_value(d, ty, table);
            if in_type(ty, number(d)->0) {
                r is Ok && of_type(r->Ok_0, ty) && number(r->Ok_0) == number(d)
            } else {
                r is Err && r->Err_0 is Type
            }
        }),
{
}

proof fn lemma_digits(n: nat)
    ensures
        digits(n).len() > 0,
        forall|i: int| 0 <= i < digits(n).len() ==> #[trigger] digits(n)[i] < 10,
        digits_value(nat_text(n)) == n,
    decreases n,
{
    if n >= 10 {
        lemma_digits(n / 10);
        let before = digits(n / 10);
        let all = digits(n);
        assert(all == before.push(n % 10));
        assert forall|i: int| 0 <= i < all.len() implies #[trigger] all[i] < 10 by {
            if i < before.len() {
                assert(all[i] == before[i]);
            }
        }
        let text = nat_text(n);
        assert(text.drop_last() =~= nat_text(n / 10));
        assert(text.last() == digit_char(n % 10));
        assert(digit_value(digit_char(n % 10)) == n % 10);
    } else {
        let text = nat_text(n);
        assert(text =~= seq![digit_char(n)]);
        assert(text.drop_last() =~= Seq::<char>::empty());
        assert(digits_value(Seq::<char>::empty()) == 0);
        assert(digit_value(digit_char(n)) == n);
    }
}

proof fn lemma_numeral(n: nat)
    ensures
        is_numeral(nat_text(n)),
        digits_value(nat_text(n)) == n,
{
    lemma_digits(n);
    let text = nat_text(n);
    assert forall|i: int| 0 <= i < text.len() implies is_digit(#[trigger] text[i]) by {
        assert(text[i] == digit_char(digits(n)[i]));
    }
}

/// The numeral of a number spells the number.
pub proof fn law_numerals_spell_their_number(n: int)
    ensures
        int_parsed(int_text(n)) == Some(n),
        is_tight(int_text(n)),
{
    let text = int_text(n);
    if n < 0 {
        let m = (-n) as nat;
        lemma_numeral(m);
        assert(text.drop_first() =~= nat_text(m));
        assert(text[0] == '-');
        assert(text.last() == nat_text(m).last());
        assert(is_digit(nat_text(m)[nat_text(m).len() - 1]));
    } else {
        lemma_numeral(n as nat);
        assert(is_digit(text[0]));
        assert(is_digit(text[text.len() - 1]));
    }
}

/// An integer casts to its numeral, and the numeral, with or without white space around it,
/// back to the integer.
pub proof fn law_integers_survive_text(
    d: Datum,
    ty: LogicalType,
    p: Seq<char>,
    q: Seq<char>,
    table: Seq<(Question, Answer)>,
)
    requires
        number(d) is Some,
        of_type(d, ty),
        is_blank(p),
        is_blank(q),
    ensures
        ({
            let r = cast_value(d, LogicalType::Text, table);
            &&& r is Ok && r->Ok_0 is Text && int_parsed(r->Ok_0->Text_0) == Some(number(d)->0)
            &&& cast_value(Datum::Text(p + r->Ok_0->Text_0 + q), ty, table) == Ok::<Datum, Fault>(d)
        }),
{
    let n = number(d)->0;
    law_numerals_spell_their_number(n);
    law_blanks_around_do_not_count(p, int_text(n), q);
}

/// A text casts to an integer type exactly where it spells an integer of the type: an optional
/// sign and digits, with white space around them.
pub proof fn law_texts_cast_to_integers(
    p: Seq<char>,
    w: Seq<char>,
    q: Seq<char>,
    ty: LogicalType,
    table: Seq<(Question, Answer)>,
)
    requires
        is_blank(p),
        is_blank(q),
        is_tight(w),
        ty is Int16 || ty is Int32 || ty is Int64,
    ensures
        ({
            let r = cast_value(Datum::Text(p + w + q), ty, table);
            match int_parsed(w) {
                Some(n) if in_type(ty, n) => r is Ok && of_type(r->Ok_0, ty) && number(r->Ok_0)
                    == Some(n),
                _ => r is Err && r->Err_0 is Type,
            }
        }),
{
    law_blanks_around_do_not_count(p, w, q);
}

// --- decimals ---

/// An integer is the whole decimal of the same number, and that casts back to it.
pub proof fn law_integers_survive_decimals(
    d: Datum,
    ty: LogicalType,
    table: Seq<(Question, Answer)>,
)
    requires
        number(d) is Some,
        of_type(d, ty),
    ensures
        ({
            let r = cast_value(d, LogicalType::Numeric, table);
            &&& r is Ok && r->Ok_0 is Numeric && r->Ok_0->Numeric_0.scale == 0
                && r->Ok_0->Numeric_0.signed() == number(d)->0
            &&& cast_value(r->Ok_0, ty, table) == Ok::<Datum, Fault>(d)
        }),
{
    let n = number(d)->0;
    let p = DecimalParts::whole(n);
    assert(pow10(0) == 1);
    assert(p.coefficient / 1 == p.coefficient && p.coefficient % 1 == 0);
    assert(p.whole_part() == p.coefficient && p.places() == 0);
    let r = p.rounded();
    assert(r.scale == 0 && r.coefficient == p.coefficient);
    assert(r.coefficient / 1 == r.coefficient);
    assert(r.whole_part() == r.coefficient);
}

proof fn lemma_nearest(p: DecimalParts)
    ensures
        ({
            let (u, n) = (pow10(p.scale) as int, p.rounded().signed());
            &&& -u <= 2 * (n * u - p.signed()) <= u
            &&& (2 * (n * u - p.signed()) == u || 2 * (n * u - p.signed()) == -u) ==> n % 2 == 0
            &&& p.rounded().truncated_i64() == if i64::MIN <= n <= i64::MAX {
                Some(n as i64)
            } else {
                None
            }
        }),
{
    lemma_pow10_positive(p.scale);
    let (c, u) = (p.coefficient as int, pow10(p.scale) as int);
    vstd::arithmetic::div_mod::lemma_fundamental_div_mod(c, u);
    vstd::arithmetic::div_mod::lemma_mod_bound(c, u);
    let (w, r) = (p.whole_part() as int, p.places() as int);
    assert(u * (c / u) == w * u) by (nonlinear_arith)
        requires
            w == c / u,
    ;
    assert((w + 1) * u == w * u + u) by (nonlinear_arith);
    assert((-w) * u == -(w * u)) by (nonlinear_arith);
    assert((-(w + 1)) * u == -(w * u) - u) by (nonlinear_arith);
    let g = p.rounded();
    assert(pow10(0) == 1);
    assert(g.scale == 0);
    assert(g.coefficient / 1 == g.coefficient);
    assert(g.whole_part() == g.coefficient);
    let up = 2 * r > u || (2 * r == u && w % 2 == 1);
    assert(g.signed() == if p.negative && up {
        -(w + 1)
    } else if p.negative {
        -w
    } else if up {
        w + 1
    } else {
        w
    });
}

/// A decimal casts to an integer type as the nearest whole number, and of two that are equally
/// near as the even one; where the type does not have that number it is a type error.
pub proof fn law_decimals_cast_to_the_nearest_integer(
    p: DecimalParts,
    ty: LogicalType,
    n: int,
    table: Seq<(Question, Answer)>,
)
    requires
        ty is Int16 || ty is Int32 || ty is Int64,
        -(pow10(p.scale) as int) <= 2 * (n * pow10(p.scale) - p.signed()) <= pow10(p.scale),
        (2 * (n * pow10(p.scale) - p.signed()) == pow10(p.scale) || 2 * (n * pow10(p.scale)
            - p.signed()) == -(pow10(p.scale) as int)) ==> n % 2 == 0,
    ensures
        ({
            let r = cast_value(Datum::Numeric(p), ty, table);
            if in_type(ty, n) {
                r is Ok && of_type(r->Ok_0, ty) && number(r->Ok_0) == Some(n)
            } else {
                r is Err && r->Err_0 is Type
            }
        }),
{
    lemma_nearest(p);
    lemma_pow10_positive(p.scale);
    let (u, m, x) = (pow10(p.scale) as int, p.rounded().signed(), p.signed());
    assert(n == m) by {
        if n > m {
            assert(n * u >= m * u + u) by (nonlinear_arith)
                requires
                    n > m,
                    u > 0,
            ;
            assert(n == m + 1) by (nonlinear_arith)
                requires
                    n > m,
                    u > 0,
                    2 * (n * u - x) <= u,
                    -u <= 2 * (m * u - x),
            ;
        } else if n < m {
            assert(m * u >= n * u + u) by (nonlinear_arith)
                requires
                    m > n,
                    u > 0,
            ;
            assert(m == n + 1) by (nonlinear_arith)
                requires
                    m > n,
                    u > 0,
                    2 * (m * u - x) <= u,
                    -u <= 2 * (n * u - x),
            ;
        }
    }
}

// --- dates and timestamps ---

/// A timestamp's day is the one that it falls into: it begins at its midnight and ends before
/// the next.
pub proof fn law_timestamps_fall_on_their_day(t: i64, table: Seq<(Question, Answer)>)
    ensures
        ({
            let r = cast_value(Datum::Timestamp(t), LogicalType::Date, table);
            &&& r is Ok && r->Ok_0 is Date
            &&& r->Ok_0->Date_0 * 86_400_000_000 <= t
            &&& t < (r->Ok_0->Date_0 + 1) * 86_400_000_000
        }),
{
    assert(MICROS_PER_DAY == 86_400_000_000);
    let day = (t as int) / 86_400_000_000int;
    assert(i32::MIN <= day <= i32::MAX);
}

/// A date is its midnight as a timestamp, where 64 bits hold it, and that falls on the date.
pub proof fn law_dates_survive_timestamps(n: i32, table: Seq<(Question, Answer)>)
    ensures
        ({
            let r = cast_value(Datum::Date(n), LogicalType::Timestamp, table);
            if -0x8000_0000_0000_0000 <= n * 86_400_000_000 <= 0x7fff_ffff_ffff_ffff {
                &&& r is Ok && r->Ok_0 is Timestamp && r->Ok_0->Timestamp_0 == n * 86_400_000_000
                &&& cast_value(r->Ok_0, LogicalType::Date, table) == Ok::<Datum, Fault>(
                    Datum::Date(n),
                )
            } else {
                r is Err && r->Err_0 is Type
            }
        }),
{
    assert(MICROS_PER_DAY == 86_400_000_000);
    assert((n * 86_400_000_000) / 86_400_000_000int == n);
}

// --- bytes and arrays ---

/// The number of a hexadecimal digit.
pub open spec fn hex_value(c: char) -> int {
    if '0' <= c <= '9' {
        c as int - '0' as int
    } else {
        c as int - 'a' as int + 10
    }
}

proof fn lemma_hex(b: Seq<u8>)
    ensures
        hex_text(b).len() == 2 + 2 * b.len(),
        hex_text(b)[0] == '\\',
        hex_text(b)[1] == 'x',
        forall|i: int|
            0 <= i < b.len() ==> #[trigger] b[i] == 16 * hex_value(hex_text(b)[2 + 2 * i])
                + hex_value(hex_text(b)[3 + 2 * i]),
    decreases b.len(),
{
    if b.len() > 0 {
        let before = b.drop_last();
        lemma_hex(before);
        let (s, all) = (hex_text(before), hex_text(b));
        let x = b.last();
        assert(all == s.push(hex_char((x / 16) as int)).push(hex_char((x % 16) as int)));
        assert forall|i: int| 0 <= i < b.len() implies #[trigger] b[i] == 16 * hex_value(
            all[2 + 2 * i],
        ) + hex_value(all[3 + 2 * i]) by {
            if i < before.len() {
                assert(b[i] == before[i]);
                assert(all[2 + 2 * i] == s[2 + 2 * i]);
                assert(all[3 + 2 * i] == s[3 + 2 * i]);
            } else {
                assert(all[2 + 2 * i] == hex_char((x / 16) as int));
                assert(all[3 + 2 * i] == hex_char((x % 16) as int));
                assert(hex_value(hex_char((x / 16) as int)) == x / 16);
                assert(hex_value(hex_char((x % 16) as int)) == x % 16);
            }
        }
    }
}

/// Bytes cast to `\x` and two hexadecimal digits for each byte, from which the bytes can be read
/// off.
pub proof fn law_bytes_cast_to_hexadecimal(b: Seq<u8>, table: Seq<(Question, Answer)>)
    ensures
        ({
            let r = cast_value(Datum::Bytes(b), LogicalType::Text, table);
            &&& r is Ok && r->Ok_0 is Text
            &&& r->Ok_0->Text_0.len() == 2 + 2 * b.len()
            &&& r->Ok_0->Text_0[0] == '\\'
            &&& r->Ok_0->Text_0[1] == 'x'
            &&& forall|i: int|
                0 <= i < b.len() ==> #[trigger] b[i] == 16 * hex_value(
                    r->Ok_0->Text_0[2 + 2 * i],
                ) + hex_value(r->Ok_0->Text_0[3 + 2 * i])
        }),
{
    lemma_hex(b);
}

proof fn lemma_joined_prefix(
    items: Seq<Datum>,
    more: Seq<Datum>,
    n: nat,
    table: Seq<(Question, Answer)>,
)
    requires
        n <= items.len() <= more.len(),
        forall|i: int| 0 <= i < items.len() ==> items[i] == #[trigger] more[i],
    ensures
        joined_text(items, n, table) == joined_text(more, n, table),
    decreases n,
{
    if n > 0 {
        lemma_joined_prefix(items, more, (n - 1) as nat, table);
        assert(items[n - 1] == more[n - 1]);
    }
}

/// The text of an array is the texts of its elements in braces, with a comma between any two:
/// an empty array has none, one element stands alone, and one more goes behind a comma.
pub proof fn law_array_text(
    items: Seq<Datum>,
    x: Datum,
    inner: Seq<char>,
    s: Seq<char>,
    table: Seq<(Question, Answer)>,
)
    requires
        text_of(x, table) == Ok::<Seq<char>, Fault>(s),
    ensures
        text_of(Datum::Array(Seq::empty()), table) == Ok::<Seq<char>, Fault>(seq!['{', '}']),
        text_of(Datum::Array(seq![x]), table) == Ok::<Seq<char>, Fault>(seq!['{'] + s + seq!['}']),
        items.len() > 0 && text_of(Datum::Array(items), table) == Ok::<Seq<char>, Fault>(
            seq!['{'] + inner + seq!['}'],
        ) ==> text_of(Datum::Array(items.push(x)), table) == Ok::<Seq<char>, Fault>(
            seq!['{'] + inner + seq![','] + s + seq!['}'],
        ),
{
    reveal_with_fuel(text_of, 2);
    reveal_with_fuel(joined_text, 2);
    let none = Seq::<Datum>::empty();
    assert(joined_text(none, 0, table) == Ok::<Seq<char>, Fault>(Seq::empty()));
    assert(seq!['{'] + Seq::<char>::empty() + seq!['}'] =~= seq!['{', '}']);
    let one = seq![x];
    assert(one[0] == x);
    assert(joined_text(one, 0, table) == Ok::<Seq<char>, Fault>(Seq::empty()));
    assert(joined_text(one, 1, table) == Ok::<Seq<char>, Fault>(s));
    if items.len() > 0 && text_of(Datum::Array(items), table) == Ok::<Seq<char>, Fault>(
        seq!['{'] + inner + seq!['}'],
    ) {
        let had = joined_text(items, items.len(), table)->Ok_0;
        let (a, b) = (seq!['{'] + had + seq!['}'], seq!['{'] + inner + seq!['}']);
        assert(a == b);
        assert(had =~= a.subrange(1, a.len() - 1));
        assert(inner =~= b.subrange(1, b.len() - 1));
        let more = items.push(x);
        lemma_joined_prefix(items, more, items.len(), table);
        assert(more[items.len() as int] == x);
        assert(joined_text(more, more.len(), table) == Ok::<Seq<char>, Fault>(
            inner + seq![','] + s,
        ));
        assert(seq!['{'] + (inner + seq![','] + s) + seq!['}'] =~= seq!['{'] + inner + seq![',']
            + s + seq!['}']);
    }
}

/// The text of a value that goes into `CONCAT` is the one that it casts to.
pub proof fn law_concatenated_text_is_the_cast_text(d: Datum, table: Seq<(Question, Answer)>)
    ensures
        d is Text ==> text_of(d, table) == Ok::<Seq<char>, Fault>(d->Text_0),
        number(d) is Some ==> text_of(d, table) == Ok::<Seq<char>, Fault>(int_text(number(d)->0)),
        !(d is Null || d is Bytes || d is Json) ==> cast_value(d, LogicalType::Text, table)
            == match text_of(d, table) {
            Ok(s) => Ok::<Datum, Fault>(Datum::Text(s)),
            Err(f) => Err(f),
        },
{
}

// --- what is asked of the host ---

/// Floats, timestamps, times and intervals are shown, and read, as the host has them: a cast
/// asks about the value itself, and gives the answer.
pub proof fn law_casts_ask_about_their_value(
    d: Datum,
    p: Seq<char>,
    w: Seq<char>,
    q: Seq<char>,
    table: Seq<(Question, Answer)>,
)
    requires
        is_blank(p),
        is_blank(q),
        is_tight(w),
    ensures
        d is Float32 ==> cast_value(d, LogicalType::Text, table) == shown_as(
            table,
            Question::ShowFloat32(d->Float32_0),
        ),
        d is Float64 ==> cast_value(d, LogicalType::Text, table) == shown_as(
            table,
            Question::ShowFloat64(d->Float64_0),
        ),
        d is Timestamp ==> cast_value(d, LogicalType::Text, table) == shown_as(
            table,
            Question::ShowTimestamp(d->Timestamp_0),
        ),
        d is Time ==> cast_value(d, LogicalType::Text, table) == shown_as(
            table,
            Question::ShowTime(d->Time_0),
        ),
        d is Interval ==> cast_value(d, LogicalType::Text, table) == shown_as(
            table,
            Question::ShowInterval(d->Interval_0),
        ),
        d is Numeric ==> cast_value(d, LogicalType::Text, table) == Ok::<Datum, Fault>(
            Datum::Text(
                decimal_text(
                    d->Numeric_0.negative,
                    d->Numeric_0.coefficient,
                    d->Numeric_0.scale,
                ),
            ),
        ),
        d is Uuid ==> cast_value(d, LogicalType::Text, table) == Ok::<Datum, Fault>(
            Datum::Text(uuid_text(d->Uuid_0.value)),
        ),
        number(d) is Some ==> cast_value(d, LogicalType::Float64, table) == match asked_float(
            table,
            Question::FloatOfInt(number(d)->0 as i64),
        ) {
            Ok(f) => Ok::<Datum, Fault>(Datum::Float64(f)),
            Err(e) => Err(e),
        },
        d is Float32 ==> cast_value(d, LogicalType::Float64, table) == Ok::<Datum, Fault>(
            Datum::Float64(widened(d->Float32_0)),
        ),
        d is Float64 ==> cast_value(d, LogicalType::Float32, table) == match asked_float32(
            table,
            Question::Narrow(d->Float64_0),
        ) {
            Ok(f) => Ok::<Datum, Fault>(Datum::Float32(f)),
            Err(e) => Err(e),
        },
        ({
            let r = cast_value(Datum::Text(p + w + q), LogicalType::Timestamp, table);
            match asked_parsed_int(table, Question::ParseTimestamp(w)) {
                Ok(t) => r == Ok::<Datum, Fault>(Datum::Timestamp(t)),
                Err(e) => r == Err::<Datum, Fault>(e),
            }
        }),
        ({
            let r = cast_value(Datum::Text(p + w + q), LogicalType::Time, table);
            match asked_parsed_int(table, Question::ParseTime(w)) {
                Ok(t) => r == Ok::<Datum, Fault>(Datum::Time(t)),
                Err(e) => r == Err::<Datum, Fault>(e),
            }
        }),
        ({
            let r = cast_value(Datum::Text(p + w + q), LogicalType::Interval, table);
            match asked_parsed_interval(table, Question::ParseInterval(w)) {
                Ok(i) => r == Ok::<Datum, Fault>(Datum::Interval(i)),
                Err(e) => r == Err::<Datum, Fault>(e),
            }
        }),
        ({
            let r = cast_value(Datum::Text(p + w + q), LogicalType::Numeric, table);
            match decimal_parsed(w) {
                Some(x) => r == Ok::<Datum, Fault>(Datum::Numeric(x)),
                None => r is Err && r->Err_0 is Type,
            }
        }),
        ({
            let r = cast_value(Datum::Text(p + w + q), LogicalType::Uuid, table);
            match uuid_parsed(w) {
                Some(x) => r is Ok && r->Ok_0 is Uuid && r->Ok_0->Uuid_0.value == x,
                None => r is Err && r->Err_0 is Type,
            }
        }),
{
    law_blanks_around_do_not_count(p, w, q);
    reveal_with_fuel(text_of, 2);
}

/// An answered text as a value.
pub open spec fn shown_as(table: Seq<(Question, Answer)>, q: Question) -> Result<Datum, Fault> {
    match asked_text(table, q) {
        Ok(s) => Ok(Datum::Text(s)),
        Err(e) => Err(e),
    }
}

/// A date casts to the text of its day, and a text that names a day to that date, whatever white
/// space is around it.
pub proof fn law_dates_and_texts(
    n: i32,
    p: Seq<char>,
    w: Seq<char>,
    q: Seq<char>,
    table: Seq<(Question, Answer)>,
)
    requires
        is_blank(p),
        is_blank(q),
        is_tight(w),
    ensures
        in_calendar(n as int) ==> cast_value(Datum::Date(n), LogicalType::Text, table) == Ok::<
            Datum,
            Fault,
        >(Datum::Text(date_text(n as int))),
        !in_calendar(n as int) ==> cast_value(Datum::Date(n), LogicalType::Text, table) is Err,
        ({
            let r = cast_value(Datum::Text(p + w + q), LogicalType::Date, table);
            match date_parsed(w) {
                Some(day) => r is Ok && r->Ok_0 is Date && r->Ok_0->Date_0 == day as i32,
                None => r is Err && r->Err_0 is Type,
            }
        }),
{
    law_blanks_around_do_not_count(p, w, q);
    reveal_with_fuel(text_of, 2);
}

/// Texts cast to their bytes in UTF-8, and bytes to themselves. What is neither a text nor bytes
/// does not cast to bytes.
pub proof fn law_texts_cast_to_bytes(d: Datum, table: Seq<(Question, Answer)>)
    requires
        !(d is Null),
    ensures
        d is Text ==> cast_value(d, LogicalType::Bytes, table) == Ok::<Datum, Fault>(
            Datum::Bytes(vstd::utf8::encode_utf8(d->Text_0)),
        ),
        d is Bytes ==> cast_value(d, LogicalType::Bytes, table) == Ok::<Datum, Fault>(d),
        !(d is Text || d is Bytes) ==> cast_value(d, LogicalType::Bytes, table) is Err,
{
}

/// Casts that there are not: a value that is neither of the type nor of one that converts to it
/// is a type error.
pub proof fn law_other_casts_are_refused(d: Datum, table: Seq<(Question, Answer)>)
    requires
        !(d is Null),
    ensures
        !(d is Bool || number(d) is Some || d is Text) ==> {
            let r = cast_value(d, LogicalType::Bool, table);
            r is Err && r->Err_0 is Type
        },
        d is Date || d is Timestamp || d is Time || d is Uuid || d is Interval || d is Bytes
            || d is Json || d is Array ==> {
            let r = cast_value(d, LogicalType::Int64, table);
            r is Err && r->Err_0 is Type
        },
        !(d is Date || d is Text || d is Timestamp) ==> {
            let r = cast_value(d, LogicalType::Date, table);
            r is Err && r->Err_0 is Type
        },
        !(d is Timestamp || d is Text || d is Date) ==> {
            let r = cast_value(d, LogicalType::Timestamp, table);
            r is Err && r->Err_0 is Type
        },
        !(d is Time || d is Text) ==> cast_value(d, LogicalType::Time, table) is Err,
        !(d is Uuid || d is Text) ==> cast_value(d, LogicalType::Uuid, table) is Err,
        !(d is Interval || d is Text) ==> cast_value(d, LogicalType::Interval, table) is Err,
        !(d is Json || d is Text) ==> cast_value(d, LogicalType::Json, table) is Err,
{
}

} // verus!
