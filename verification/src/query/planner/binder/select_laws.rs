//! What the clauses of a `SELECT` do to rows: `WHERE`, `ORDER BY`, the select list, `LIMIT` and
//! `OFFSET`.

use vstd::prelude::*;

use super::dml::constant;
use super::expr::{bound, Visible};
use super::expr_laws::worth;
use super::query::{
    all_columns, bound_from, bound_item, bound_limit, bound_offset, bound_order, bound_projection,
    bound_query, bound_select, bound_sort_keys, bound_where, Relation,
};
use super::query_laws::law_sort_keys_are_the_terms;
use super::scope::ColumnModel;
use crate::query::context::ContextModel;
use crate::query::error::Fault;
use crate::query::expression::eval::{evaluated, values_of};
use crate::query::expression::value_laws::{number, truth};
use crate::query::expression::Term;
use crate::query::host::{Answer, Question};
use crate::query::logical_plan::LogicalTree;
use crate::query::planner::ast::{
    SqlBody, SqlExpr, SqlItem, SqlLimit, SqlOrderBy, SqlOrderTerm, SqlQuery, SqlSelect,
};
use crate::query::planner::lower::lowered;
use crate::query::volcano::order_by::{
    law_equal_keys_tie, law_sort_keys_order_rows, precedes, row_precedes, sort_values, sortable,
    ties,
};
use crate::query::volcano::rows::{stream_rows, Row};
use crate::query::volcano::run::{error_free, items_of, runs, yields, Outcome, Stream, Trace};
use crate::query::volcano::scalar::{filtered, limited, projected, skipped};
use crate::query::volcano::scalar_laws::{
    law_filter_keeps_the_true_rows, law_limit_behind_offset,
    law_projection_evaluates_its_expressions,
};
use crate::query::volcano::sort::{
    arranged, comes_before, is_sorted_output, key_lt, key_parts, law_sort_is_a_permutation, sorts,
    stream_keys, KeyBytes, SortTerm,
};
use crate::storage::codec::order::{datum_less, datum_same};
use crate::storage::types::Datum;

verus! {

// --- WHERE ---

/// `WHERE` keeps exactly the rows of which its condition is true. `input` are the rows that the
/// `FROM` clause gives; a row on which the condition is false or null is not kept.
pub proof fn law_where_keeps_the_true_rows(
    e: SqlExpr,
    source: Relation,
    tree: LogicalTree,
    ctx: ContextModel,
    t: Trace,
    out: Stream,
) -> (input: Stream)
    requires
        bound_where(Some(e), source, ctx.answers) == Ok::<LogicalTree, Fault>(tree),
        runs(lowered(tree), ctx, t),
        t.outcome() == Ok::<Stream, Fault>(out),
    ensures
        yields(lowered(source.0), ctx, Ok(input)),
        forall|row: Row|
            #[trigger] out.contains(Ok(row)) <==> input.contains(Ok(row)) && worth(
                e,
                Some(source.1),
                row,
                ctx.answers,
            ) == truth(true),
{
    let p = bound(e, Some(source.1), ctx.answers)->Ok_0;
    match t {
        Trace::Unary(u, o) => {
            let input = u.outcome()->Ok_0;
            assert(runs(lowered(source.0), ctx, *u));
            assert(out == filtered(input, p, ctx.answers));
            assert forall|row: Row|
                #[trigger] out.contains(Ok(row)) <==> input.contains(Ok(row)) && worth(
                    e,
                    Some(source.1),
                    row,
                    ctx.answers,
                ) == truth(true) by {
                law_filter_keeps_the_true_rows(input, p, ctx.answers, row);
            }
            input
        },
        _ => Seq::empty(),
    }
}

/// Without a `WHERE` all rows stay.
pub proof fn law_no_where_keeps_all(source: Relation, table: Seq<(Question, Answer)>)
    ensures
        bound_where(None, source, table) == Ok::<LogicalTree, Fault>(source.0),
{
}

// --- ORDER BY ---

/// Whether an item is a row with a given sort key.
spec fn keyed(
    item: Result<Row, Fault>,
    k: KeyBytes,
    keys: Seq<SortTerm>,
    table: Seq<(Question, Answer)>,
) -> bool {
    item is Ok && key_parts(item->Ok_0, keys, keys.len(), table) == Ok::<KeyBytes, Fault>(k)
}

proof fn lemma_stream_keys(
    items: Stream,
    n: nat,
    keys: Seq<SortTerm>,
    table: Seq<(Question, Answer)>,
)
    requires
        n <= items.len(),
        stream_keys(items, n, keys, table) is Ok,
    ensures
        stream_keys(items, n, keys, table)->Ok_0.len() == n,
        forall|i: int|
            0 <= i < n ==> keyed(
                items[i],
                #[trigger] stream_keys(items, n, keys, table)->Ok_0[i],
                keys,
                table,
            ),
    decreases n,
{
    if n > 0 {
        let m = (n - 1) as nat;
        lemma_stream_keys(items, m, keys, table);
        let before = stream_keys(items, m, keys, table)->Ok_0;
        let ks = stream_keys(items, n, keys, table)->Ok_0;
        assert(ks == before.push(ks[m as int]));
        assert(keyed(items[m as int], ks[m as int], keys, table));
        assert forall|i: int| 0 <= i < n implies keyed(
            items[i],
            #[trigger] ks[i],
            keys,
            table,
        ) by {
            if i < m {
                assert(ks[i] == before[i]);
            }
        }
    }
}

/// Whether a value comes before another by one term of an `ORDER BY`, as the term says it:
/// nulls where `NULLS FIRST` or `NULLS LAST` says, otherwise behind the values of an ascending
/// term and before those of a descending one; values by their order, or against it where the
/// term says `DESC`.
pub open spec fn comes_first(a: Datum, b: Datum, term: SqlOrderTerm) -> bool {
    let descending = term.ascending == Some(false);
    let nulls_lead = match term.nulls_first {
        Some(first) => first,
        None => descending,
    };
    if a is Null {
        !(b is Null) && nulls_lead
    } else if b is Null {
        !nulls_lead
    } else if descending {
        datum_less(b, a)
    } else {
        datum_less(a, b)
    }
}

/// Whether two values rank the same: both null, or the same value.
pub open spec fn rank_same(a: Datum, b: Datum) -> bool {
    if a is Null || b is Null {
        a is Null && b is Null
    } else {
        datum_same(a, b)
    }
}

/// What a row is worth to a term of an `ORDER BY`.
pub open spec fn term_value(
    terms: Seq<SqlOrderTerm>,
    i: int,
    columns: Seq<ColumnModel>,
    row: Row,
    table: Seq<(Question, Answer)>,
) -> Datum {
    worth(terms[i].expr, Some(columns), row, table)->Ok_0
}

/// Whether two rows rank the same by the first `n` terms.
pub open spec fn tied_upto(
    terms: Seq<SqlOrderTerm>,
    n: int,
    columns: Seq<ColumnModel>,
    a: Row,
    b: Row,
    table: Seq<(Question, Answer)>,
) -> bool {
    forall|j: int|
        #![trigger terms[j]]
        0 <= j < n ==> rank_same(
            term_value(terms, j, columns, a, table),
            term_value(terms, j, columns, b, table),
        )
}

/// Whether the terms can put two rows in order: by each term one is null, or they are of one
/// scalar type.
pub open spec fn comparable_rows(
    terms: Seq<SqlOrderTerm>,
    columns: Seq<ColumnModel>,
    a: Row,
    b: Row,
    table: Seq<(Question, Answer)>,
) -> bool {
    forall|j: int|
        #![trigger terms[j]]
        0 <= j < terms.len() ==> sortable(
            term_value(terms, j, columns, a, table),
            term_value(terms, j, columns, b, table),
        )
}

proof fn lemma_first_difference(a: Seq<Datum>, b: Seq<Datum>, keys: Seq<SortTerm>, k: nat, i: nat)
    requires
        k <= i < keys.len(),
        forall|j: int| k <= j < i ==> ties(#[trigger] a[j], #[trigger] b[j]),
        !ties(a[i as int], b[i as int]),
    ensures
        row_precedes(a, b, keys, k) == precedes(a[i as int], b[i as int], keys[i as int]),
    decreases i - k,
{
    if k < i {
        assert(ties(a[k as int], b[k as int]));
        lemma_first_difference(a, b, keys, k + 1, i);
    }
}

/// The rows of an ordered query are those of the query without its order, each as often, and
/// in the order that its terms say: of any two that rank the same by the first `i` terms and
/// not by the next, the one that comes first does so by that term, in the term's own direction.
/// `rows` are the rows before they are ordered.
pub proof fn law_order_by_orders(
    terms: Vec<SqlOrderTerm>,
    tree: LogicalTree,
    columns: Seq<ColumnModel>,
    ordered: LogicalTree,
    ctx: ContextModel,
    t: Trace,
    out: Stream,
) -> (rows: Seq<Row>)
    requires
        bound_order(SqlOrderBy::Terms(terms), tree, columns, ctx.answers) == Ok::<
            LogicalTree,
            Fault,
        >(ordered),
        runs(lowered(ordered), ctx, t),
        t.outcome() == Ok::<Stream, Fault>(out),
    ensures
        yields(lowered(tree), ctx, Ok(items_of(rows))),
        error_free(out),
        out.len() == rows.len(),
        forall|row: Row| #[trigger] stream_rows(out).contains(row) <==> rows.contains(row),
        forall|x: int, y: int, i: int|
            #![trigger stream_rows(out)[x], stream_rows(out)[y], terms@[i]]
            0 <= x < y < out.len() && 0 <= i < terms@.len() && comparable_rows(
                terms@,
                columns,
                stream_rows(out)[x],
                stream_rows(out)[y],
                ctx.answers,
            ) && tied_upto(
                terms@,
                i,
                columns,
                stream_rows(out)[x],
                stream_rows(out)[y],
                ctx.answers,
            ) && !rank_same(
                term_value(terms@, i, columns, stream_rows(out)[x], ctx.answers),
                term_value(terms@, i, columns, stream_rows(out)[y], ctx.answers),
            ) ==> comes_first(
                term_value(terms@, i, columns, stream_rows(out)[x], ctx.answers),
                term_value(terms@, i, columns, stream_rows(out)[y], ctx.answers),
                terms@[i],
            ),
{
    let table = ctx.answers;
    let keys = bound_sort_keys(terms@, terms@.len(), Some(columns), table)->Ok_0;
    law_sort_keys_are_the_terms(terms@, Some(columns), table, keys);
    match t {
        Trace::Unary(u, o) => {
            let items = u.outcome()->Ok_0;
            assert(runs(lowered(tree), ctx, *u));
            lemma_stream_keys(items, items.len(), keys, table);
            let ks = stream_keys(items, items.len(), keys, table)->Ok_0;
            let rows = stream_rows(items);
            let p = choose|p: Seq<usize>| is_sorted_output(stream_rows(out), items, ks, p);
            assert(is_sorted_output(stream_rows(out), items, ks, p));
            assert(items =~= items_of(rows)) by {
                assert forall|i: int| 0 <= i < items.len() implies #[trigger] items[i]
                    == items_of(rows)[i] by {
                    assert(keyed(items[i], ks[i], keys, table));
                }
            }
            assert forall|k: int| 0 <= k < ks.len() implies key_parts(
                rows[k],
                keys,
                keys.len(),
                table,
            ) == Ok::<KeyBytes, Fault>(#[trigger] ks[k]) by {
                assert(keyed(items[k], ks[k], keys, table));
            }
            law_sort_is_a_permutation(ks, p);
            lemma_arranged(rows, p, ks);
            assert forall|x: int, y: int, i: int|
                #![trigger stream_rows(out)[x], stream_rows(out)[y], terms@[i]]
                0 <= x < y < out.len() && 0 <= i < terms@.len() && comparable_rows(
                    terms@,
                    columns,
                    stream_rows(out)[x],
                    stream_rows(out)[y],
                    table,
                ) && tied_upto(
                    terms@,
                    i,
                    columns,
                    stream_rows(out)[x],
                    stream_rows(out)[y],
                    table,
                ) && !rank_same(
                    term_value(terms@, i, columns, stream_rows(out)[x], table),
                    term_value(terms@, i, columns, stream_rows(out)[y], table),
                ) implies comes_first(
                term_value(terms@, i, columns, stream_rows(out)[x], table),
                term_value(terms@, i, columns, stream_rows(out)[y], table),
                terms@[i],
            ) by {
                lemma_ordered_pair(terms@, columns, rows, ks, keys, p, x, y, i, table);
            }
            rows
        },
        _ => Seq::empty(),
    }
}

/// Rows listed in sorted order are the rows.
pub proof fn lemma_arranged(rows: Seq<Row>, p: Seq<usize>, ks: Seq<KeyBytes>)
    requires
        sorts(ks, p),
        ks.len() == rows.len(),
    ensures
        arranged(rows, p).len() == rows.len(),
        forall|row: Row| #[trigger] arranged(rows, p).contains(row) <==> rows.contains(row),
{
    law_sort_is_a_permutation(ks, p);
    let out = arranged(rows, p);
    assert forall|row: Row| #[trigger] out.contains(row) <==> rows.contains(row) by {
        if out.contains(row) {
            let k = out.index_of(row);
            assert(p.contains(p[k]));
            assert(rows[p[k] as int] == row);
        }
        if rows.contains(row) {
            let i = rows.index_of(row);
            lemma_listed(ks, p, i);
            let k = p.index_of(i as usize);
            assert(out[k] == row);
        }
    }
}

/// Every place is listed.
proof fn lemma_listed(ks: Seq<KeyBytes>, p: Seq<usize>, i: int)
    requires
        sorts(ks, p),
        0 <= i < ks.len(),
    ensures
        p.contains(i as usize),
        (i as usize) == i,
{
    law_sort_is_a_permutation(ks, p);
    lemma_places_are_few(p);
}

/// No more places are listed, each once, than there are numbers for them.
proof fn lemma_places_are_few(p: Seq<usize>)
    requires
        p.no_duplicates(),
    ensures
        p.len() <= usize::MAX + 1,
{
    let s = p.map_values(|x: usize| x as int);
    assert(s.no_duplicates()) by {
        assert forall|i: int, j: int| 0 <= i < s.len() && 0 <= j < s.len() && i != j implies s[i]
            != s[j] by {
            assert(p[i] != p[j]);
        }
    }
    s.unique_seq_to_set();
    let all = vstd::set_lib::set_int_range(0, usize::MAX + 1);
    vstd::set_lib::lemma_int_range(0, usize::MAX + 1);
    assert(s.to_set().subset_of(all));
    vstd::set_lib::lemma_len_subset(s.to_set(), all);
}

proof fn lemma_ordered_pair(
    terms: Seq<SqlOrderTerm>,
    columns: Seq<ColumnModel>,
    rows: Seq<Row>,
    ks: Seq<KeyBytes>,
    keys: Seq<SortTerm>,
    p: Seq<usize>,
    x: int,
    y: int,
    i: int,
    table: Seq<(Question, Answer)>,
)
    requires
        bound_sort_keys(terms, terms.len(), Some(columns), table) == Ok::<Seq<SortTerm>, Fault>(
            keys,
        ),
        ks.len() == rows.len(),
        forall|k: int|
            0 <= k < ks.len() ==> key_parts(rows[k], keys, keys.len(), table) == Ok::<
                KeyBytes,
                Fault,
            >(#[trigger] ks[k]),
        sorts(ks, p),
        0 <= x < y < p.len(),
        0 <= i < terms.len(),
        comparable_rows(terms, columns, rows[p[x] as int], rows[p[y] as int], table),
        tied_upto(terms, i, columns, rows[p[x] as int], rows[p[y] as int], table),
        !rank_same(
            term_value(terms, i, columns, rows[p[x] as int], table),
            term_value(terms, i, columns, rows[p[y] as int], table),
        ),
    ensures
        comes_first(
            term_value(terms, i, columns, rows[p[x] as int], table),
            term_value(terms, i, columns, rows[p[y] as int], table),
            terms[i],
        ),
{
    law_sort_keys_are_the_terms(terms, Some(columns), table, keys);
    let (a, b) = (rows[p[x] as int], rows[p[y] as int]);
    let (va, vb) = (sort_values(a, keys, table), sort_values(b, keys, table));
    assert forall|j: int| 0 <= j < keys.len() implies #[trigger] va[j] == term_value(
        terms,
        j,
        columns,
        a,
        table,
    ) by {
        assert(bound(terms[j].expr, Some(columns), table) == Ok::<Term, Fault>(keys[j].expr));
    }
    assert forall|j: int| 0 <= j < keys.len() implies #[trigger] vb[j] == term_value(
        terms,
        j,
        columns,
        b,
        table,
    ) by {
        assert(bound(terms[j].expr, Some(columns), table) == Ok::<Term, Fault>(keys[j].expr));
    }
    assert forall|j: int| 0 <= j < keys.len() implies sortable(
        #[trigger] va[j],
        #[trigger] vb[j],
    ) by {
        let term = terms[j];
        assert(sortable(
            term_value(terms, j, columns, a, table),
            term_value(terms, j, columns, b, table),
        ));
    }
    assert forall|j: int| 0 <= j < i implies ties(#[trigger] va[j], #[trigger] vb[j]) by {
        let term = terms[j];
        assert(rank_same(
            term_value(terms, j, columns, a, table),
            term_value(terms, j, columns, b, table),
        ));
    }
    assert(comes_before(ks, p[x] as int, p[y] as int));
    let (ka, kb) = (ks[p[x] as int], ks[p[y] as int]);
    assert(key_parts(a, keys, keys.len(), table) == Ok::<KeyBytes, Fault>(ka));
    assert(key_parts(b, keys, keys.len(), table) == Ok::<KeyBytes, Fault>(kb));
    law_sort_keys_order_rows(a, b, keys, table);
    if ka == kb {
        law_equal_keys_tie(a, b, keys, table);
        assert(ties(va[i], vb[i]));
    }
    assert(key_lt(ka, kb));
    lemma_first_difference(va, vb, keys, 0, i as nat);
    let key = keys[i];
    assert(key.ascending <==> terms[i].ascending != Some(false));
}

// --- the select list ---

proof fn lemma_split(
    a: Seq<SqlItem>,
    b: Seq<SqlItem>,
    n: nat,
    columns: Seq<ColumnModel>,
    table: Seq<(Question, Answer)>,
)
    requires
        n <= b.len(),
        bound_projection(a, a.len(), columns, table) is Ok,
    ensures
        bound_projection(a + b, a.len() + n, columns, table) == match bound_projection(
            b,
            n,
            columns,
            table,
        ) {
            Ok(ts) => Ok::<Seq<Term>, Fault>(
                bound_projection(a, a.len(), columns, table)->Ok_0 + ts,
            ),
            Err(f) => Err(f),
        },
    decreases n,
{
    let all = a + b;
    if n == 0 {
        lemma_prefix(a, all, a.len(), columns, table);
        let ts = bound_projection(a, a.len(), columns, table)->Ok_0;
        assert(ts + Seq::<Term>::empty() =~= ts);
    } else {
        lemma_split(a, b, (n - 1) as nat, columns, table);
        assert(all[a.len() + n - 1] == b[n - 1]);
        if bound_projection(b, n, columns, table) is Ok {
            let head = bound_projection(a, a.len(), columns, table)->Ok_0;
            let mid = bound_projection(b, (n - 1) as nat, columns, table)->Ok_0;
            let last = bound_item(b[n - 1], columns, table)->Ok_0;
            assert(head + mid + last =~= head + (mid + last));
        }
    }
}

proof fn lemma_prefix(
    a: Seq<SqlItem>,
    all: Seq<SqlItem>,
    n: nat,
    columns: Seq<ColumnModel>,
    table: Seq<(Question, Answer)>,
)
    requires
        n <= a.len() <= all.len(),
        forall|i: int| 0 <= i < a.len() ==> a[i] == #[trigger] all[i],
    ensures
        bound_projection(a, n, columns, table) == bound_projection(all, n, columns, table),
    decreases n,
{
    if n > 0 {
        lemma_prefix(a, all, (n - 1) as nat, columns, table);
        assert(a[n - 1] == all[n - 1]);
    }
}

/// A select list gives its items' columns one after the other, in the order in which they are
/// written: what a list and a second one behind it give is what each gives by itself.
pub proof fn law_select_lists_concatenate(
    a: Seq<SqlItem>,
    b: Seq<SqlItem>,
    columns: Seq<ColumnModel>,
    table: Seq<(Question, Answer)>,
)
    requires
        bound_projection(a, a.len(), columns, table) is Ok,
        bound_projection(b, b.len(), columns, table) is Ok,
    ensures
        bound_projection(a + b, (a + b).len(), columns, table) == Ok::<Seq<Term>, Fault>(
            bound_projection(a, a.len(), columns, table)->Ok_0 + bound_projection(
                b,
                b.len(),
                columns,
                table,
            )->Ok_0,
        ),
{
    lemma_split(a, b, b.len(), columns, table);
}

/// One item that is an expression gives one column, which is worth what the expression is on
/// every row; `*` gives every column of the row, in order.
pub proof fn law_select_items(
    e: SqlExpr,
    columns: Seq<ColumnModel>,
    row: Row,
    table: Seq<(Question, Answer)>,
)
    requires
        row.len() == columns.len(),
    ensures
        ({
            let r = bound_projection(seq![SqlItem::Expr(e)], 1, columns, table);
            match bound(e, Some(columns), table) {
                Ok(_) => r is Ok && r->Ok_0.len() == 1 && evaluated(r->Ok_0[0], row, table)
                    == worth(e, Some(columns), row, table),
                Err(f) => r == Err::<Seq<Term>, Fault>(f),
            }
        }),
        ({
            let r = bound_projection(seq![SqlItem::Wildcard], 1, columns, table);
            &&& r is Ok && r->Ok_0.len() == columns.len()
            &&& forall|i: int|
                0 <= i < columns.len() ==> evaluated(#[trigger] r->Ok_0[i], row, table) == Ok::<
                    Datum,
                    Fault,
                >(row[i])
        }),
{
    reveal_with_fuel(bound_projection, 2);
    let one = seq![SqlItem::Expr(e)];
    assert(one[0] == SqlItem::Expr(e));
    let star = seq![SqlItem::Wildcard];
    assert(star[0] == SqlItem::Wildcard);
    let none = Seq::<Term>::empty();
    if let Ok(t) = bound(e, Some(columns), table) {
        assert(none + seq![t] =~= seq![t]);
    }
    assert(none + all_columns(columns.len()) =~= all_columns(columns.len()));
}

/// A `SELECT` gives one row for each that its `FROM`, `WHERE` and `ORDER BY` clauses leave, in
/// their order: the values of its select list on that row. `input` is what those clauses leave.
pub proof fn law_select_projects(
    select: SqlSelect,
    order_by: SqlOrderBy,
    ctx: ContextModel,
    source: Relation,
    kept: LogicalTree,
    ordered: LogicalTree,
    ts: Seq<Term>,
    tree: LogicalTree,
    t: Trace,
    out: Stream,
) -> (input: Stream)
    requires
        bound_from(select.from@, ctx) == Ok::<Relation, Fault>(source),
        bound_where(select.selection, source, ctx.answers) == Ok::<LogicalTree, Fault>(kept),
        bound_order(order_by, kept, source.1, ctx.answers) == Ok::<LogicalTree, Fault>(ordered),
        bound_projection(
            select.projection@,
            select.projection@.len(),
            source.1,
            ctx.answers,
        ) == Ok::<Seq<Term>, Fault>(ts),
        bound_select(select, order_by, ctx) == Ok::<LogicalTree, Fault>(tree),
        runs(lowered(tree), ctx, t),
        t.outcome() == Ok::<Stream, Fault>(out),
    ensures
        yields(lowered(ordered), ctx, Ok(input)),
        out.len() == input.len(),
        forall|k: int|
            #![trigger out[k]]
            0 <= k < out.len() ==> match input[k] {
                Err(f) => out[k] == Err::<Row, Fault>(f),
                Ok(row) => match out[k] {
                    Ok(made) => made.len() == ts.len() && forall|i: int|
                        0 <= i < made.len() ==> evaluated(ts[i], row, ctx.answers) == Ok::<
                            Datum,
                            Fault,
                        >(#[trigger] made[i]),
                    Err(f) => exists|i: int|
                        0 <= i < ts.len() && evaluated(#[trigger] ts[i], row, ctx.answers)
                            == Err::<Datum, Fault>(f),
                },
            },
{
    assert(tree == LogicalTree::Project(Box::new(ordered), ts));
    match t {
        Trace::Unary(u, o) => {
            let input = u.outcome()->Ok_0;
            assert(runs(lowered(ordered), ctx, *u));
            assert(out == projected(input, ts, ctx.answers));
            assert forall|k: int|
                #![trigger out[k]]
                0 <= k < out.len() implies match input[k] {
                Err(f) => out[k] == Err::<Row, Fault>(f),
                Ok(row) => match out[k] {
                    Ok(made) => made.len() == ts.len() && forall|i: int|
                        0 <= i < made.len() ==> evaluated(ts[i], row, ctx.answers) == Ok::<
                            Datum,
                            Fault,
                        >(#[trigger] made[i]),
                    Err(f) => exists|i: int|
                        0 <= i < ts.len() && evaluated(#[trigger] ts[i], row, ctx.answers)
                            == Err::<Datum, Fault>(f),
                },
            } by {
                law_projection_evaluates_its_expressions(input, ts, ctx.answers, k);
            }
            input
        },
        _ => Seq::empty(),
    }
}

// --- LIMIT and OFFSET ---

/// A count in a `LIMIT` or `OFFSET` is the number that it spells. A negative one is refused, and
/// so is what is no integer.
pub proof fn law_counts(
    e: SqlExpr,
    tree: LogicalTree,
    table: Seq<(Question, Answer)>,
)
    ensures
        match constant(e, table) {
            Err(f) => bound_limit(Some(e), tree, table) == Err::<LogicalTree, Fault>(f)
                && bound_offset(Some(e), tree, table) == Err::<LogicalTree, Fault>(f),
            Ok(d) => match number(d) {
                Some(n) if 0 <= n <= usize::MAX => {
                    let (limit, offset) = (
                        bound_limit(Some(e), tree, table),
                        bound_offset(Some(e), tree, table),
                    );
                    &&& limit is Ok && limit->Ok_0 is Limit && *limit->Ok_0->Limit_0 == tree
                        && limit->Ok_0->Limit_1 == n
                    &&& offset is Ok && offset->Ok_0 is Offset && *offset->Ok_0->Offset_0 == tree
                        && offset->Ok_0->Offset_1 == n
                },
                _ => {
                    let (limit, offset) = (
                        bound_limit(Some(e), tree, table),
                        bound_offset(Some(e), tree, table),
                    );
                    &&& limit is Err && limit->Err_0 is Type
                    &&& offset is Err && offset->Err_0 is Type
                },
            },
        },
{
}

/// `LIMIT k OFFSET n` gives the rows of the query without them from behind the first `n` on, `k`
/// of them at most: the offset is skipped before the limit counts. `rows` are the query's rows
/// without either.
pub proof fn law_limit_counts_behind_the_offset(
    query: SqlQuery,
    select: SqlSelect,
    limit: SqlExpr,
    offset: SqlExpr,
    k: nat,
    n: nat,
    plain: LogicalTree,
    tree: LogicalTree,
    ctx: ContextModel,
    t: Trace,
    out: Stream,
) -> (input: Stream)
    requires
        query.body == SqlBody::Select(select),
        query.limit == (SqlLimit::Standard { limit: Some(limit), offset: Some(offset), by: false }),
        bound_select(select, query.order_by, ctx) == Ok::<LogicalTree, Fault>(plain),
        constant(limit, ctx.answers) is Ok,
        number(constant(limit, ctx.answers)->Ok_0) == Some(k as int),
        constant(offset, ctx.answers) is Ok,
        number(constant(offset, ctx.answers)->Ok_0) == Some(n as int),
        bound_query(query, ctx) == Ok::<LogicalTree, Fault>(tree),
        runs(lowered(tree), ctx, t),
        t.outcome() == Ok::<Stream, Fault>(out),
    ensures
        yields(lowered(plain), ctx, Ok(input)),
        error_free(input) ==> {
            &&& out.len() == if input.len() <= n {
                0
            } else if input.len() <= n + k {
                (input.len() - n) as nat
            } else {
                k
            }
            &&& forall|i: int| 0 <= i < out.len() ==> #[trigger] out[i] == input[i + n]
        },
{
    let table = ctx.answers;
    law_counts(limit, LogicalTree::Offset(Box::new(plain), n as usize), table);
    law_counts(offset, plain, table);
    let inner = LogicalTree::Offset(Box::new(plain), n as usize);
    assert(tree == LogicalTree::Limit(Box::new(inner), k as usize));
    reveal_with_fuel(lowered, 3);
    match t {
        Trace::Unary(u, o) => {
            assert(runs(lowered(inner), ctx, *u));
            match *u {
                Trace::Unary(v, q) => {
                    let input = v.outcome()->Ok_0;
                    assert(runs(lowered(plain), ctx, *v));
                    assert(out == limited(skipped(input, n), k));
                    if error_free(input) {
                        let rows = stream_rows(input);
                        assert(input =~= items_of(rows));
                        law_limit_behind_offset(rows, n, k);
                        assert forall|i: int| 0 <= i < out.len() implies #[trigger] out[i]
                            == input[i + n] by {
                            assert(out[i] == Ok::<Row, Fault>(rows[i + n]));
                        }
                    }
                    input
                },
                _ => Seq::empty(),
            }
        },
        _ => Seq::empty(),
    }
}

/// Without `LIMIT` and `OFFSET` a query gives all its rows.
pub proof fn law_no_limit_gives_all(query: SqlQuery, select: SqlSelect, ctx: ContextModel)
    requires
        !query.fetch,
        !(query.order_by is All),
        query.body == SqlBody::Select(select),
        query.limit is Absent || query.limit == (SqlLimit::Standard {
            limit: None,
            offset: None,
            by: false,
        }),
    ensures
        bound_query(query, ctx) == bound_select(select, query.order_by, ctx),
{
}

} // verus!
