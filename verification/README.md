# strata_db

An embedded SQL database whose core is verified with Verus: what SQL means, what a plan does,
how rows are stored, and what the catalog keeps are stated as contracts and proved.

```
SQL text           sql
    |              the parser's statements
binder             query::planner::binder     names, types, constants
    |              logical plans
lowering           query::planner::lower      algorithms
    |              physical plans
executor           query::volcano             scans, filters, sorts, four joins, writes
    |
catalog            catalog                    projects, datasets, incarnations of tables
rows and keys      storage                    order-preserving keys, row encoding
engine             store                      index over a heap, step by step
journal            journal                    framed records
```

- `src/` is the library. Every function is verified; the few calls into other crates stand
  behind small functions whose doc comments say what is taken on trust.
- `app/` is what needs the outside world: floating point, clocks, files, the parser's own types.
- `tests/` runs the library.

Proof functions named `law_..` state what holds of several functions together: that keys order
as their values do, that rows and journal frames read back as they were written, that a `SELECT`
gives back what an `INSERT` wrote, that a scan of the engine sees the last write of every key.

From the same inputs the join algorithms give the same rows: the block nested loop for any
predicate; the hash join for `column = column` where the keys are nulls and scalars of any
types, but not arrays; the merge join for inner joins on keys that can be ordered pair by pair,
which a float beside an exact number, JSON, bytes, times and UUIDs cannot.

A float is its bits here: their order, equality, widening and rounding to an integer are in
`storage::float`. Arithmetic on floats is the host's. An evaluation that needs it stops with the
question; the host answers it, and the evaluation starts over with the answer at hand
(`query::host`).

The text of an error is part of its contract, with the values it is about (`storage::shown`). A
float stands in such a text by its bits.
