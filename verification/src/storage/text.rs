//! Character strings: conversions between `String`, `str` and `Vec<char>`,
//! decimal numerals, and the few Unicode operations the engine leans on.

use vstd::prelude::*;
use vstd::utf8::encode_utf8;

verus! {

// --- strings and characters ---

/// The characters of `s`, in order.
pub fn chars_of(s: &str) -> (r: Vec<char>)
    ensures
        r@ == s@,
{
    let mut out: Vec<char> = Vec::new();
    for c in it: s.chars()
        invariant
            out@ == it.seq().take(it.index()),
            it.seq() == s@,
    {
        out.push(c);
        assert(it.seq().take(it.index() + 1) =~= it.seq().take(it.index()).push(c));
    }
    out
}

/// `String::from_iter`, over a slice of characters: the string that holds exactly
/// those characters in that order.
#[verifier::external_body]
pub(crate) fn string_from_chars(cs: &[char]) -> (r: String)
    ensures
        r@ == cs@,
{
    String::from_iter(cs)
}

/// The string of `cs[from..to]`.
pub fn string_of_range(cs: &Vec<char>, from: usize, to: usize) -> (r: String)
    requires
        from <= to <= cs@.len(),
    ensures
        r@ == cs@.subrange(from as int, to as int),
{
    let mut out: Vec<char> = Vec::new();
    let mut i: usize = from;
    while i < to
        invariant
            from <= i <= to <= cs@.len(),
            out@ == cs@.subrange(from as int, i as int),
        decreases to - i,
    {
        out.push(cs[i]);
        assert(cs@.subrange(from as int, i + 1) =~= cs@.subrange(from as int, i as int).push(
            cs@[i as int],
        ));
        i = i + 1;
    }
    string_from_chars(&out)
}

/// Texts one after the other.
pub open spec fn strung(parts: Seq<&str>) -> Seq<char>
    decreases parts.len(),
{
    if parts.len() == 0 {
        Seq::empty()
    } else {
        strung(parts.drop_last()) + parts.last()@
    }
}

/// Two texts strung together.
pub proof fn lemma_strung_two(parts: Seq<&str>)
    requires
        parts.len() == 2,
    ensures
        strung(parts) == parts[0]@ + parts[1]@,
{
    reveal_with_fuel(strung, 3);
    assert(strung(parts) =~= parts[0]@ + parts[1]@);
}

/// Three texts strung together.
pub proof fn lemma_strung_three(parts: Seq<&str>)
    requires
        parts.len() == 3,
    ensures
        strung(parts) == parts[0]@ + parts[1]@ + parts[2]@,
{
    reveal_with_fuel(strung, 4);
    assert(strung(parts) =~= parts[0]@ + parts[1]@ + parts[2]@);
}

/// Four texts strung together.
pub proof fn lemma_strung_four(parts: Seq<&str>)
    requires
        parts.len() == 4,
    ensures
        strung(parts) == parts[0]@ + parts[1]@ + parts[2]@ + parts[3]@,
{
    lemma_strung_three(parts.drop_last());
}

/// Five texts strung together.
pub proof fn lemma_strung_five(parts: Seq<&str>)
    requires
        parts.len() == 5,
    ensures
        strung(parts) == parts[0]@ + parts[1]@ + parts[2]@ + parts[3]@ + parts[4]@,
{
    lemma_strung_four(parts.drop_last());
}

/// String texts together.
pub fn string_together(parts: &Vec<&str>) -> (r: String)
    ensures
        r@ == strung(parts@),
{
    let mut out: Vec<char> = Vec::new();
    let mut i: usize = 0;
    assert(parts@.take(0) =~= Seq::empty());
    while i < parts.len()
        invariant
            i <= parts@.len(),
            out@ == strung(parts@.take(i as int)),
        decreases parts@.len() - i,
    {
        push_str(&mut out, parts[i]);
        assert(parts@.take(i + 1).drop_last() =~= parts@.take(i as int));
        i = i + 1;
    }
    assert(parts@.take(i as int) =~= parts@);
    string_from_chars(&out)
}

/// Append the characters of `s`.
pub fn push_str(out: &mut Vec<char>, s: &str)
    ensures
        final(out)@ == old(out)@ + s@,
{
    let cs = chars_of(s);
    let mut i: usize = 0;
    assert(old(out)@ + cs@.take(0) =~= old(out)@);
    while i < cs.len()
        invariant
            i <= cs@.len(),
            out@ == old(out)@ + cs@.take(i as int),
        decreases cs@.len() - i,
    {
        out.push(cs[i]);
        assert(cs@.take(i + 1) =~= cs@.take(i as int).push(cs@[i as int]));
        assert(old(out)@ + cs@.take(i + 1) =~= (old(out)@ + cs@.take(i as int)).push(cs@[i as int]));
        i = i + 1;
    }
    assert(cs@.take(cs@.len() as int) =~= cs@);
}

/// Whether two strings hold the same characters.
pub fn str_eq(a: &str, b: &str) -> (r: bool)
    ensures
        r == (a@ == b@),
{
    let x = chars_of(a);
    let y = chars_of(b);
    if x.len() != y.len() {
        return false;
    }
    let mut i: usize = 0;
    while i < x.len()
        invariant
            i <= x@.len() == y@.len(),
            x@ == a@,
            y@ == b@,
            forall|j: int| 0 <= j < i ==> x@[j] == y@[j],
        decreases x@.len() - i,
    {
        if x[i] != y[i] {
            return false;
        }
        i = i + 1;
    }
    assert(x@ =~= y@);
    true
}

/// `String::from_utf8`: the string that `bytes` encode, where they are valid UTF-8.
#[verifier::external_body]
pub(crate) fn string_from_utf8(bytes: Vec<u8>) -> (r: Option<String>)
    ensures
        r is Some <==> vstd::utf8::valid_utf8(bytes@),
        r is Some ==> encode_utf8(r->0@) == bytes@,
{
    String::from_utf8(bytes).ok()
}

/// The UTF-8 bytes of `s`.
pub fn utf8_bytes(s: &str) -> (r: Vec<u8>)
    ensures
        r@ == encode_utf8(s@),
{
    crate::storage::bytes::copy_bytes(s.as_bytes())
}

// --- whitespace and case ---

/// Whether a character is white space: the Unicode `White_Space` property.
pub open spec fn is_space(c: char) -> bool {
    ||| '\u{9}' <= c <= '\u{d}'
    ||| c == ' '
    ||| c == '\u{85}'
    ||| c == '\u{a0}'
    ||| c == '\u{1680}'
    ||| '\u{2000}' <= c <= '\u{200a}'
    ||| c == '\u{2028}'
    ||| c == '\u{2029}'
    ||| c == '\u{202f}'
    ||| c == '\u{205f}'
    ||| c == '\u{3000}'
}

/// Whether a character is white space.
pub fn char_is_space(c: char) -> (r: bool)
    ensures
        r == is_space(c),
{
    ('\u{9}' <= c && c <= '\u{d}') || c == ' ' || c == '\u{85}' || c == '\u{a0}' || c
        == '\u{1680}' || ('\u{2000}' <= c && c <= '\u{200a}') || c == '\u{2028}' || c
        == '\u{2029}' || c == '\u{202f}' || c == '\u{205f}' || c == '\u{3000}'
}

/// `s` with every leading character that `drop` picks taken off.
pub open spec fn strip_start(s: Seq<char>, drop: spec_fn(char) -> bool) -> Seq<char>
    decreases s.len(),
{
    if s.len() > 0 && drop(s[0]) {
        strip_start(s.drop_first(), drop)
    } else {
        s
    }
}

/// `s` with every trailing character that `drop` picks taken off.
pub open spec fn strip_end(s: Seq<char>, drop: spec_fn(char) -> bool) -> Seq<char>
    decreases s.len(),
{
    if s.len() > 0 && drop(s.last()) {
        strip_end(s.drop_last(), drop)
    } else {
        s
    }
}

/// `s` without its leading and trailing white space.
pub open spec fn trimmed(s: Seq<char>) -> Seq<char> {
    strip_end(strip_start(s, |c: char| is_space(c)), |c: char| is_space(c))
}

/// Take white space off both ends.
pub fn trim(s: &str) -> (r: String)
    ensures
        r@ == trimmed(s@),
{
    let cs = chars_of(s);
    let ghost ws = |c: char| is_space(c);
    let mut start: usize = 0;
    let mut end: usize = cs.len();
    assert(cs@.subrange(0, end as int) =~= cs@);
    while start < end && char_is_space(cs[start])
        invariant
            start <= end == cs@.len(),
            ws == (|c: char| is_space(c)),
            strip_start(cs@, ws) == strip_start(cs@.subrange(start as int, end as int), ws),
        decreases end - start,
    {
        assert(cs@.subrange(start as int, end as int).drop_first() =~= cs@.subrange(
            start + 1,
            end as int,
        ));
        start = start + 1;
    }
    let ghost front = strip_start(cs@, ws);
    assert(front == cs@.subrange(start as int, end as int));
    while end > start && char_is_space(cs[end - 1])
        invariant
            start <= end <= cs@.len(),
            ws == (|c: char| is_space(c)),
            strip_end(front, ws) == strip_end(cs@.subrange(start as int, end as int), ws),
        decreases end - start,
    {
        assert(cs@.subrange(start as int, end as int).drop_last() =~= cs@.subrange(
            start as int,
            end - 1,
        ));
        end = end - 1;
    }
    string_of_range(&cs, start, end)
}

/// The upper-case form of a string: what `str::to_uppercase` returns.
pub uninterp spec fn uppercased(s: Seq<char>) -> Seq<char>;

/// The lower-case form of a string: what `str::to_lowercase` returns.
pub uninterp spec fn lowercased(s: Seq<char>) -> Seq<char>;

/// `str::to_uppercase`: Unicode upper-casing, named [`uppercased`].
#[verifier::external_body]
pub(crate) fn to_uppercase(s: &str) -> (r: String)
    ensures
        r@ == uppercased(s@),
{
    s.to_uppercase()
}

/// `str::to_lowercase`: Unicode lower-casing, named [`lowercased`].
#[verifier::external_body]
pub(crate) fn to_lowercase(s: &str) -> (r: String)
    ensures
        r@ == lowercased(s@),
{
    s.to_lowercase()
}

// --- decimal numerals ---

/// The digit characters.
pub open spec fn digit_char(d: nat) -> char {
    (('0' as nat) + d) as char
}

/// The decimal digits of `n`, most significant first; `0` has one digit.
pub open spec fn digits(n: nat) -> Seq<nat>
    decreases n,
{
    if n < 10 {
        seq![n]
    } else {
        digits(n / 10).push(n % 10)
    }
}

/// The decimal numeral of `n`.
pub open spec fn nat_text(n: nat) -> Seq<char> {
    digits(n).map_values(|d: nat| digit_char(d))
}

/// The decimal numeral of `n`, with a leading minus for a negative number.
pub open spec fn int_text(n: int) -> Seq<char> {
    if n < 0 {
        seq!['-'] + nat_text((-n) as nat)
    } else {
        nat_text(n as nat)
    }
}

/// Whether `c` is one of the ten digit characters.
pub open spec fn is_digit(c: char) -> bool {
    '0' <= c <= '9'
}

/// The number a digit character stands for.
pub open spec fn digit_value(c: char) -> nat {
    (c as nat - '0' as nat) as nat
}

/// The number that a string of digit characters spells.
pub open spec fn digits_value(s: Seq<char>) -> nat
    decreases s.len(),
{
    if s.len() == 0 {
        0
    } else {
        10 * digits_value(s.drop_last()) + digit_value(s.last())
    }
}

/// Whether `s` is a non-empty run of digits.
pub open spec fn is_numeral(s: Seq<char>) -> bool {
    s.len() > 0 && forall|i: int| 0 <= i < s.len() ==> is_digit(#[trigger] s[i])
}

/// The signed integer that `s` spells: an optional `+` or `-`, then digits.
pub open spec fn int_parsed(s: Seq<char>) -> Option<int> {
    if s.len() > 0 && s[0] == '-' && is_numeral(s.drop_first()) {
        Some(-(digits_value(s.drop_first()) as int))
    } else if s.len() > 0 && s[0] == '+' && is_numeral(s.drop_first()) {
        Some(digits_value(s.drop_first()) as int)
    } else if is_numeral(s) {
        Some(digits_value(s) as int)
    } else {
        None
    }
}

/// The `i64` that `s` spells, where it spells one in range.
pub open spec fn i64_parsed(s: Seq<char>) -> Option<i64> {
    match int_parsed(s) {
        Some(n) => if i64::MIN <= n <= i64::MAX {
            Some(n as i64)
        } else {
            None
        },
        None => None,
    }
}

/// The decimal digits of `n`.
pub fn digits_of(n: u128) -> (r: Vec<u8>)
    ensures
        r@.len() == digits(n as nat).len(),
        forall|i: int| 0 <= i < r@.len() ==> #[trigger] r@[i] == digits(n as nat)[i],
        forall|i: int| 0 <= i < r@.len() ==> #[trigger] r@[i] < 10,
    decreases n,
{
    if n < 10 {
        let mut v: Vec<u8> = Vec::new();
        v.push(n as u8);
        v
    } else {
        let mut v = digits_of(n / 10);
        v.push((n % 10) as u8);
        v
    }
}

/// The digit character of `d`.
fn digit_of(d: u8) -> (c: char)
    requires
        d < 10,
    ensures
        c == digit_char(d as nat),
{
    ('0' as u8 + d) as char
}

/// The decimal numeral of `n`.
pub fn int_to_text(n: i64) -> (r: String)
    ensures
        r@ == int_text(n as int),
{
    numeral_of(n as i128)
}

/// The decimal numeral of a count.
pub fn count_to_text(n: usize) -> (r: String)
    ensures
        r@ == int_text(n as int),
{
    numeral_of(n as i128)
}

/// The decimal numeral of a number of up to 127 bits.
pub fn numeral_of(n: i128) -> (r: String)
    requires
        n > i128::MIN,
    ensures
        r@ == int_text(n as int),
{
    let mut out: Vec<char> = Vec::new();
    let m: u128 = if n < 0 {
        out.push('-');
        (-n) as u128
    } else {
        n as u128
    };
    let ds = digits_of(m);
    let ghost sign = out@;
    let ghost numeral = nat_text(m as nat);
    let mut i: usize = 0;
    assert(sign + numeral.take(0) =~= sign);
    while i < ds.len()
        invariant
            i <= ds@.len(),
            ds@.len() == digits(m as nat).len(),
            forall|j: int| 0 <= j < ds@.len() ==> #[trigger] ds@[j] == digits(m as nat)[j],
            forall|j: int| 0 <= j < ds@.len() ==> #[trigger] ds@[j] < 10,
            numeral == nat_text(m as nat),
            out@ == sign + numeral.take(i as int),
        decreases ds@.len() - i,
    {
        let c = digit_of(ds[i]);
        out.push(c);
        assert(sign + numeral.take(i + 1) =~= (sign + numeral.take(i as int)).push(c));
        i = i + 1;
    }
    assert(numeral.take(ds@.len() as int) =~= numeral);
    assert(out@ =~= int_text(n as int));
    string_from_chars(&out)
}

/// Parse an optionally signed decimal integer, as `str::parse::<i64>` does.
pub fn parse_i64(s: &str) -> (r: Option<i64>)
    ensures
        r == i64_parsed(s@),
{
    let cs = chars_of(s);
    if cs.len() == 0 {
        return None;
    }
    let negative = cs[0] == '-';
    let start: usize = if negative || cs[0] == '+' {
        1
    } else {
        0
    };
    let ghost body = cs@.skip(start as int);
    assert(start == 1 ==> body =~= cs@.drop_first());
    assert(start == 0 ==> body =~= cs@);
    assert(start == 1 ==> !is_digit(cs@[0]));
    if start == cs.len() {
        return None;
    }
    let mut i: usize = start;
    let mut v: i128 = 0;
    let mut big: bool = false;
    assert(body.take(0) =~= Seq::<char>::empty());
    while i < cs.len()
        invariant
            start <= i <= cs@.len(),
            body == cs@.skip(start as int),
            start == 1 ==> body == cs@.drop_first() && !is_digit(cs@[0]),
            start == 0 ==> body == cs@ && cs@[0] != '-' && cs@[0] != '+',
            start == 1 ==> cs@[0] == '-' || cs@[0] == '+',
            start <= 1,
            cs@ == s@,
            cs@.len() > start,
            forall|j: int| 0 <= j < i - start ==> is_digit(#[trigger] body[j]),
            0 <= v <= 0x8000_0000_0000_0000,
            !big ==> v == digits_value(body.take(i - start)),
            big ==> digits_value(body.take(i - start)) > 0x8000_0000_0000_0000,
        decreases cs@.len() - i,
    {
        let c = cs[i];
        assert(c == body[i - start]);
        assert(body.take(i - start + 1).drop_last() =~= body.take(i - start));
        if !(c >= '0' && c <= '9') {
            assert(!is_digit(body[i - start]));
            assert(!is_numeral(body));
            assert(start == 1 ==> !is_digit(s@[0]) && !is_numeral(s@));
            return None;
        }
        let d: i128 = (c as u32 - '0' as u32) as i128;
        if !big {
            let w: i128 = 10 * v + d;
            if w > 0x8000_0000_0000_0000 {
                big = true;
            } else {
                v = w;
            }
        }
        i = i + 1;
    }
    assert(body.take(body.len() as int) =~= body);
    assert(is_numeral(body));
    if big {
        return None;
    }
    if negative {
        Some((-v) as i64)
    } else if v <= 0x7fff_ffff_ffff_ffff {
        Some(v as i64)
    } else {
        None
    }
}

} // verus!
