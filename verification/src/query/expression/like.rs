//! `LIKE` pattern matching.

use vstd::prelude::*;

use crate::storage::text::chars_of;

verus! {

/// Whether `t` matches the pattern `p`: `%` stands for any run of characters, also an empty
/// one, `_` for exactly one, and every other character for itself.
pub open spec fn like(t: Seq<char>, p: Seq<char>) -> bool
    decreases p.len(), t.len(),
{
    if p.len() == 0 {
        t.len() == 0
    } else if p[0] == '%' {
        like(t, p.drop_first()) || (t.len() > 0 && like(t.drop_first(), p))
    } else {
        t.len() > 0 && (p[0] == '_' || p[0] == t[0]) && like(t.drop_first(), p.drop_first())
    }
}

/// Whether no `%` stands in `p[from..to]`.
spec fn plain(p: Seq<char>, from: int, to: int) -> bool {
    forall|i: int| from <= i < to ==> #[trigger] p[i] != '%'
}

/// A pattern that starts with `%` matches every string that ends in a match.
proof fn lemma_percent_absorbs(t: Seq<char>, p: Seq<char>, a: int, b: int)
    requires
        0 <= a <= b <= t.len(),
        p.len() > 0,
        p[0] == '%',
        like(t.skip(b), p),
    ensures
        like(t.skip(a), p),
    decreases b - a,
{
    if a < b {
        assert(t.skip(a).drop_first() =~= t.skip(a + 1));
        lemma_percent_absorbs(t, p, a + 1, b);
    }
}

/// A run of the pattern without `%` matches as many characters as it is long.
proof fn lemma_plain_run(t: Seq<char>, p: Seq<char>, k: int, from: int, to: int)
    requires
        0 <= k <= t.len(),
        0 <= from <= to <= p.len(),
        plain(p, from, to),
        like(t.skip(k), p.skip(from)),
    ensures
        k + (to - from) <= t.len(),
        like(t.skip(k + (to - from)), p.skip(to)),
    decreases to - from,
{
    if from < to {
        assert(p.skip(from)[0] == p[from]);
        assert(p.skip(from).drop_first() =~= p.skip(from + 1));
        assert(t.skip(k).drop_first() =~= t.skip(k + 1));
        lemma_plain_run(t, p, k + 1, from + 1, to);
    }
}

/// A match of a pattern that starts with `%` leaves some ending to the rest of the pattern.
proof fn lemma_percent_splits(t: Seq<char>, p: Seq<char>, a: int, sp: int) -> (k: int)
    requires
        0 <= a <= t.len(),
        0 <= sp < p.len(),
        p[sp] == '%',
        like(t.skip(a), p.skip(sp)),
    ensures
        a <= k <= t.len(),
        like(t.skip(k), p.skip(sp + 1)),
    decreases t.len() - a,
{
    assert(p.skip(sp)[0] == p[sp]);
    assert(p.skip(sp).drop_first() =~= p.skip(sp + 1));
    if like(t.skip(a), p.skip(sp + 1)) {
        a
    } else {
        assert(t.skip(a).drop_first() =~= t.skip(a + 1));
        lemma_percent_splits(t, p, a + 1, sp)
    }
}

/// Where a `%` comes after a plain run that matched as far left as it can, whether the whole
/// matches depends on what follows alone: earlier `%`s need not be tried again.
proof fn lemma_forget_earlier(t: Seq<char>, p: Seq<char>, sp: int, star_ti: int, ti: int, pi: int)
    requires
        0 <= sp < pi < p.len(),
        0 <= star_ti <= ti <= t.len(),
        p[sp] == '%',
        p[pi] == '%',
        plain(p, sp + 1, pi),
        pi - (sp + 1) == ti - star_ti,
        like(t.skip(star_ti), p.skip(sp + 1)) == like(t.skip(ti), p.skip(pi)),
    ensures
        like(t.skip(star_ti), p.skip(sp)) == like(t.skip(ti), p.skip(pi)),
{
    assert(p.skip(sp)[0] == p[sp]);
    assert(p.skip(sp).drop_first() =~= p.skip(sp + 1));
    assert(p.skip(pi)[0] == p[pi]);
    if like(t.skip(star_ti), p.skip(sp)) {
        let k = lemma_percent_splits(t, p, star_ti, sp);
        lemma_plain_run(t, p, k, sp + 1, pi);
        lemma_percent_absorbs(t, p.skip(pi), ti, k + (pi - (sp + 1)));
    }
}

/// Where the text is used up, trying an earlier `%` with more characters cannot help.
proof fn lemma_text_used_up(t: Seq<char>, p: Seq<char>, sp: int, star_ti: int, pi: int)
    requires
        0 <= sp < pi <= p.len(),
        0 <= star_ti <= t.len(),
        p[sp] == '%',
        plain(p, sp + 1, pi),
        pi - (sp + 1) == t.len() - star_ti,
        like(t.skip(star_ti), p.skip(sp + 1)) == like(t.skip(t.len() as int), p.skip(pi)),
    ensures
        like(t.skip(star_ti), p.skip(sp)) == like(t.skip(t.len() as int), p.skip(pi)),
{
    assert(p.skip(sp)[0] == p[sp]);
    assert(p.skip(sp).drop_first() =~= p.skip(sp + 1));
    if like(t.skip(star_ti), p.skip(sp)) {
        let k = lemma_percent_splits(t, p, star_ti, sp);
        lemma_plain_run(t, p, k, sp + 1, pi);
        assert(k == star_ti);
    }
}

/// Whether `text` matches `pattern`: a scan with two cursors that goes back to the last `%` on
/// a mismatch.
pub fn like_match(text: &str, pattern: &str) -> (r: bool)
    ensures
        r == like(text@, pattern@),
{
    let t = chars_of(text);
    let p = chars_of(pattern);
    let mut ti: usize = 0;
    let mut pi: usize = 0;
    let mut star: Option<usize> = None;
    let mut star_ti: usize = 0;
    assert(t@.skip(0) =~= t@);
    assert(p@.skip(0) =~= p@);
    while ti < t.len()
        invariant
            t@ == text@,
            p@ == pattern@,
            ti <= t@.len(),
            pi <= p@.len(),
            star is None ==> like(t@, p@) == like(t@.skip(ti as int), p@.skip(pi as int)),
            star is Some ==> {
                &&& star->0 < pi
                &&& star_ti <= ti
                &&& p@[star->0 as int] == '%'
                &&& plain(p@, star->0 + 1, pi as int)
                &&& pi - (star->0 + 1) == ti - star_ti
                &&& like(t@.skip(star_ti as int), p@.skip(star->0 + 1)) == like(
                    t@.skip(ti as int),
                    p@.skip(pi as int),
                )
                &&& like(t@, p@) == like(t@.skip(star_ti as int), p@.skip(star->0 as int))
            },
        decreases
            p@.len() - (if star is Some {
                star->0 + 1
            } else {
                0
            }),
            t@.len() - (if star is Some {
                star_ti as int
            } else {
                0
            }),
            p@.len() - pi,
    {
        let ghost rest_t = t@.skip(ti as int);
        let ghost rest_p = p@.skip(pi as int);
        assert(rest_t[0] == t@[ti as int]);
        assert(rest_t.drop_first() =~= t@.skip(ti + 1));
        if pi < p.len() && p[pi] == '%' {
            proof {
                if star is Some {
                    lemma_forget_earlier(
                        t@,
                        p@,
                        star->0 as int,
                        star_ti as int,
                        ti as int,
                        pi as int,
                    );
                }
            }
            star = Some(pi);
            star_ti = ti;
            pi = pi + 1;
        } else if pi < p.len() && (p[pi] == '_' || p[pi] == t[ti]) {
            assert(rest_p[0] == p@[pi as int]);
            assert(rest_p.drop_first() =~= p@.skip(pi + 1));
            ti = ti + 1;
            pi = pi + 1;
        } else {
            proof {
                if pi < p@.len() {
                    assert(rest_p[0] == p@[pi as int]);
                }
                assert(!like(rest_t, rest_p));
            }
            match star {
                Some(sp) => {
                    assert(p@.skip(sp as int)[0] == p@[sp as int]);
                    assert(p@.skip(sp as int).drop_first() =~= p@.skip(sp + 1));
                    assert(t@.skip(star_ti as int).drop_first() =~= t@.skip(star_ti + 1));
                    pi = sp + 1;
                    star_ti = star_ti + 1;
                    ti = star_ti;
                },
                None => {
                    return false;
                },
            }
        }
    }
    proof {
        if star is Some {
            lemma_text_used_up(t@, p@, star->0 as int, star_ti as int, pi as int);
        }
    }
    let ghost end = t@.skip(t@.len() as int);
    assert(end =~= Seq::<char>::empty());
    while pi < p.len() && p[pi] == '%'
        invariant
            pi <= p@.len(),
            end == Seq::<char>::empty(),
            like(t@, p@) == like(end, p@.skip(pi as int)),
        decreases p@.len() - pi,
    {
        assert(p@.skip(pi as int)[0] == p@[pi as int]);
        assert(p@.skip(pi as int).drop_first() =~= p@.skip(pi + 1));
        pi = pi + 1;
    }
    proof {
        if pi < p@.len() {
            assert(p@.skip(pi as int)[0] == p@[pi as int]);
        }
    }
    pi == p.len()
}

/// A pattern without wildcards matches itself and nothing else.
pub proof fn law_plain_pattern_is_equality(t: Seq<char>, p: Seq<char>)
    requires
        forall|i: int| 0 <= i < p.len() ==> #[trigger] p[i] != '%' && p[i] != '_',
    ensures
        like(t, p) == (t == p),
    decreases p.len(),
{
    if p.len() == 0 {
        assert(t.len() == 0 ==> t =~= p);
    } else {
        assert(p[0] != '%' && p[0] != '_');
        if t.len() > 0 {
            let (x, q) = (t.drop_first(), p.drop_first());
            assert forall|i: int| 0 <= i < q.len() implies #[trigger] q[i] != '%' && q[i] != '_' by {
                assert(q[i] == p[i + 1]);
            }
            law_plain_pattern_is_equality(x, q);
            assert(t =~= seq![t[0]] + x);
            assert(p =~= seq![p[0]] + q);
        }
    }
}

/// A `%` in a pattern stands for a run of any length: text and pattern are cut in two, at some
/// place in the text and at the `%`.
pub proof fn law_percent_matches_any_run(t: Seq<char>, p: Seq<char>)
    ensures
        like(t, seq!['%'] + p) == exists|k: int| 0 <= k <= t.len() && like(#[trigger] t.skip(k), p),
    decreases t.len(),
{
    let q = seq!['%'] + p;
    assert(q.drop_first() =~= p);
    assert(t.skip(0) =~= t);
    if t.len() > 0 {
        let x = t.drop_first();
        law_percent_matches_any_run(x, p);
        if like(x, q) {
            let k = choose|k: int| 0 <= k <= x.len() && like(#[trigger] x.skip(k), p);
            assert(x.skip(k) =~= t.skip(k + 1));
        }
        if exists|k: int| 0 <= k <= t.len() && like(#[trigger] t.skip(k), p) {
            let k = choose|k: int| 0 <= k <= t.len() && like(#[trigger] t.skip(k), p);
            if k > 0 {
                assert(t.skip(k) =~= x.skip(k - 1));
            }
        }
    } else {
        assert forall|k: int| 0 <= k <= t.len() implies #[trigger] t.skip(k) == t by {
            assert(t.skip(k) =~= t);
        }
    }
}

/// A `_` in a pattern stands for exactly one character.
pub proof fn law_underscore_matches_one(t: Seq<char>, p: Seq<char>)
    ensures
        like(t, seq!['_'] + p) == (t.len() > 0 && like(t.skip(1), p)),
{
    let q = seq!['_'] + p;
    assert(q.drop_first() =~= p);
    if t.len() > 0 {
        assert(t.drop_first() =~= t.skip(1));
    }
}

} // verus!
