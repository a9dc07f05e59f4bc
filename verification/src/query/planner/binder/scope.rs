//! The columns that an expression can see.

use vstd::prelude::*;

use crate::query::error::{Fault, QueryError};
use crate::storage::text::{
    lemma_strung_two, push_str, str_eq, string_from_chars, string_together,
};
use crate::storage::types::{fields_of, Field, FieldModel, Schema};

verus! {

/// One visible column: the relation it comes from, and what it is.
#[derive(Debug)]
pub struct ScopeColumn {
    /// A table's name or alias; `None` for a column that no name leads to.
    pub relation: Option<String>,
    pub field: Field,
}

/// What a [`ScopeColumn`] is, mathematically.
pub struct ColumnModel {
    pub relation: Option<Seq<char>>,
    pub field: FieldModel,
}

/// The characters of an optional string.
pub open spec fn chars_or_none(s: Option<String>) -> Option<Seq<char>> {
    match s {
        Some(t) => Some(t@),
        None => None,
    }
}

impl View for ScopeColumn {
    type V = ColumnModel;

    open spec fn view(&self) -> ColumnModel {
        ColumnModel { relation: chars_or_none(self.relation), field: self.field@ }
    }
}

impl Clone for ScopeColumn {
    fn clone(&self) -> (r: Self)
        ensures
            r@ == self@,
    {
        ScopeColumn { relation: clone_name(&self.relation), field: self.field.clone() }
    }
}

/// A copy of an optional name.
pub fn clone_name(s: &Option<String>) -> (r: Option<String>)
    ensures
        chars_or_none(r) == chars_or_none(*s),
{
    match s {
        Some(t) => Some(t.clone()),
        None => None,
    }
}

/// The columns in scope, in the order of the row.
#[derive(Debug)]
pub struct Scope {
    pub columns: Vec<ScopeColumn>,
}

impl View for Scope {
    type V = Seq<ColumnModel>;

    open spec fn view(&self) -> Seq<ColumnModel> {
        Seq::new(self.columns@.len(), |i: int| self.columns@[i]@)
    }
}

/// The columns of one relation.
pub open spec fn relation_columns(relation: Option<Seq<char>>, schema: Seq<FieldModel>) -> Seq<
    ColumnModel,
> {
    Seq::new(schema.len(), |i: int| ColumnModel { relation, field: schema[i] })
}

/// The fields of some columns.
pub open spec fn scope_schema(columns: Seq<ColumnModel>) -> Seq<FieldModel> {
    Seq::new(columns.len(), |i: int| columns[i].field)
}

/// Whether a reference means a column.
pub open spec fn refers(c: ColumnModel, relation: Option<Seq<char>>, name: Seq<char>) -> bool {
    c.field.name == name && (relation is None || c.relation == relation)
}

/// How many of the first `n` columns a reference means.
pub open spec fn reference_count(
    columns: Seq<ColumnModel>,
    relation: Option<Seq<char>>,
    name: Seq<char>,
    n: nat,
) -> nat
    decreases n,
{
    if n == 0 || n > columns.len() {
        0
    } else {
        reference_count(columns, relation, name, (n - 1) as nat) + if refers(
            columns[n - 1],
            relation,
            name,
        ) {
            1nat
        } else {
            0nat
        }
    }
}

/// The position of the one column that a reference means; an internal error where it means
/// none, or more than one.
pub open spec fn resolved_column(
    columns: Seq<ColumnModel>,
    relation: Option<Seq<char>>,
    name: Seq<char>,
) -> Result<nat, Fault> {
    if reference_count(columns, relation, name, columns.len()) == 1 {
        Ok(last_reference(columns, relation, name, columns.len())->0)
    } else if reference_count(columns, relation, name, columns.len()) == 0 {
        Err(Fault::Internal("unknown column: "@ + reference_text(relation, name)))
    } else {
        Err(Fault::Internal("ambiguous column: "@ + reference_text(relation, name)))
    }
}

/// The text of a reference.
pub open spec fn reference_text(relation: Option<Seq<char>>, name: Seq<char>) -> Seq<char> {
    match relation {
        Some(t) => t + seq!['.'] + name,
        None => name,
    }
}

/// The last of the first `n` columns that a reference means.
pub open spec fn last_reference(
    columns: Seq<ColumnModel>,
    relation: Option<Seq<char>>,
    name: Seq<char>,
    n: nat,
) -> Option<nat>
    decreases n,
{
    if n == 0 || n > columns.len() {
        None
    } else if refers(columns[n - 1], relation, name) {
        Some((n - 1) as nat)
    } else {
        last_reference(columns, relation, name, (n - 1) as nat)
    }
}

proof fn lemma_count_grows(
    columns: Seq<ColumnModel>,
    relation: Option<Seq<char>>,
    name: Seq<char>,
    m: nat,
    n: nat,
)
    requires
        m <= n <= columns.len(),
    ensures
        reference_count(columns, relation, name, m) <= reference_count(columns, relation, name, n),
    decreases n,
{
    if m < n {
        lemma_count_grows(columns, relation, name, m, (n - 1) as nat);
    }
}

/// The text of a reference.
fn display_name(relation: Option<&str>, name: &str) -> (r: String)
    ensures
        r@ == reference_text(
            match relation {
                Some(t) => Some(t@),
                None => None,
            },
            name@,
        ),
{
    let mut out: Vec<char> = Vec::new();
    if let Some(t) = relation {
        push_str(&mut out, t);
        out.push('.');
    }
    push_str(&mut out, name);
    assert(out@ =~= match relation {
        Some(t) => t@ + seq!['.'] + name@,
        None => name@,
    });
    string_from_chars(&out)
}

impl Scope {
    /// A scope without columns.
    pub fn empty() -> (r: Scope)
        ensures
            r@ == Seq::<ColumnModel>::empty(),
    {
        let r = Scope { columns: Vec::new() };
        assert(r@ =~= Seq::<ColumnModel>::empty());
        r
    }

    /// The columns of one relation.
    pub fn for_relation(relation: Option<String>, schema: &Schema) -> (r: Scope)
        ensures
            r@ == relation_columns(chars_or_none(relation), schema@),
    {
        let mut columns: Vec<ScopeColumn> = Vec::new();
        let mut i: usize = 0;
        while i < schema.fields.len()
            invariant
                i <= schema.fields@.len(),
                columns@.len() == i,
                forall|j: int|
                    0 <= j < i ==> (#[trigger] columns@[j])@ == (ColumnModel {
                        relation: chars_or_none(relation),
                        field: schema@[j],
                    }),
            decreases schema.fields@.len() - i,
        {
            let column = ScopeColumn {
                relation: clone_name(&relation),
                field: schema.fields[i].clone(),
            };
            columns.push(column);
            i = i + 1;
        }
        let r = Scope { columns };
        assert(r@ =~= relation_columns(chars_or_none(relation), schema@));
        r
    }

    /// `left ++ right`: the columns of a join's rows.
    pub fn concat(left: Scope, right: Scope) -> (r: Scope)
        ensures
            r@ == left@ + right@,
    {
        let ghost (a, b) = (left@, right@);
        let ghost items = right.columns@;
        let mut columns = left.columns;
        assert(columns@.map_values(|c: ScopeColumn| c@) =~= a + b.take(0));
        for column in it: right.columns
            invariant
                it.seq() == items,
                b == items.map_values(|c: ScopeColumn| c@),
                columns@.map_values(|c: ScopeColumn| c@) == a + b.take(it.index() as int),
        {
            let ghost i = it.index() as int;
            let ghost before = columns@.map_values(|c: ScopeColumn| c@);
            assert(column == items[i]);
            columns.push(column);
            assert(columns@.map_values(|c: ScopeColumn| c@) =~= before.push(column@));
            assert(b.take(i + 1) =~= b.take(i).push(column@));
            assert(columns@.map_values(|c: ScopeColumn| c@) =~= a + b.take(i + 1));
        }
        let r = Scope { columns };
        assert(b.take(b.len() as int) =~= b);
        assert(r@ =~= columns@.map_values(|c: ScopeColumn| c@));
        r
    }

    /// How many columns there are.
    pub fn len(&self) -> (r: usize)
        ensures
            r == self@.len(),
    {
        self.columns.len()
    }

    /// The columns as the shape of a row.
    pub fn schema(&self) -> (r: Schema)
        ensures
            r@ == scope_schema(self@),
    {
        let mut fields: Vec<Field> = Vec::new();
        let mut i: usize = 0;
        while i < self.columns.len()
            invariant
                i <= self.columns@.len(),
                fields@.len() == i,
                forall|j: int| 0 <= j < i ==> (#[trigger] fields@[j])@ == self@[j].field,
            decreases self.columns@.len() - i,
        {
            assert(self@[i as int] == self.columns@[i as int]@);
            fields.push(self.columns[i].field.clone());
            i = i + 1;
        }
        assert(fields_of(fields@) =~= scope_schema(self@));
        Schema { fields }
    }

    /// The position of the column that a reference means. Fails where no column has the name,
    /// or more than one does.
    pub fn resolve(&self, relation: Option<&str>, name: &str) -> (r: Result<usize, QueryError>)
        ensures
            match r {
                Ok(i) => resolved_column(
                    self@,
                    match relation {
                        Some(t) => Some(t@),
                        None => None,
                    },
                    name@,
                ) == Ok::<nat, Fault>(i as nat) && i < self@.len(),
                Err(e) => resolved_column(
                    self@,
                    match relation {
                        Some(t) => Some(t@),
                        None => None,
                    },
                    name@,
                ) == Err::<nat, Fault>(e@),
            },
    {
        let ghost rel = match relation {
            Some(t) => Some(t@),
            None => None,
        };
        let mut found: Option<usize> = None;
        let mut i: usize = 0;
        while i < self.columns.len()
            invariant
                i <= self.columns@.len(),
                rel == match relation {
                    Some(t) => Some(t@),
                    None => None,
                },
                match found {
                    Some(j) => {
                        &&& j < i
                        &&& last_reference(self@, rel, name@, i as nat) == Some(j as nat)
                        &&& reference_count(self@, rel, name@, i as nat) == 1
                    },
                    None => reference_count(self@, rel, name@, i as nat) == 0,
                },
            decreases self.columns@.len() - i,
        {
            let column = &self.columns[i];
            assert(self@[i as int] == column@);
            let relation_matches: bool = match relation {
                None => true,
                Some(t) => match &column.relation {
                    Some(c) => str_eq(c.as_str(), t),
                    None => false,
                },
            };
            if relation_matches && str_eq(column.field.name.as_str(), name) {
                assert(refers(self@[i as int], rel, name@));
                if found.is_some() {
                    proof {
                        lemma_count_grows(self@, rel, name@, (i + 1) as nat, self@.len());
                    }
                    let shown = display_name(relation, name);
                    let parts = vec!["ambiguous column: ", shown.as_str()];
                    proof {
                        lemma_strung_two(parts@);
                    }
                    return Err(QueryError::Internal(string_together(&parts)));
                }
                found = Some(i);
            }
            i = i + 1;
        }
        match found {
            Some(j) => Ok(j),
            None => {
                let shown = display_name(relation, name);
                let parts = vec!["unknown column: ", shown.as_str()];
                proof {
                    lemma_strung_two(parts@);
                }
                Err(QueryError::Internal(string_together(&parts)))
            },
        }
    }
}

impl Clone for Scope {
    fn clone(&self) -> (r: Self)
        ensures
            r@ == self@,
    {
        let mut columns: Vec<ScopeColumn> = Vec::new();
        let mut i: usize = 0;
        while i < self.columns.len()
            invariant
                i <= self.columns@.len(),
                columns@.len() == i,
                forall|j: int| 0 <= j < i ==> (#[trigger] columns@[j])@ == self.columns@[j]@,
            decreases self.columns@.len() - i,
        {
            columns.push(self.columns[i].clone());
            i = i + 1;
        }
        let r = Scope { columns };
        assert(r@ =~= self@);
        r
    }
}

/// A reference resolves to a column that it means, and to the only one.
pub proof fn law_resolution_is_unique(
    columns: Seq<ColumnModel>,
    relation: Option<Seq<char>>,
    name: Seq<char>,
    i: nat,
    j: nat,
)
    requires
        resolved_column(columns, relation, name) == Ok::<nat, Fault>(i),
        j < columns.len(),
        refers(columns[j as int], relation, name),
    ensures
        i == j,
        refers(columns[i as int], relation, name),
{
    lemma_last(columns, relation, name, columns.len());
    lemma_positions(columns, relation, name, columns.len(), i, j);
}

proof fn lemma_last(
    columns: Seq<ColumnModel>,
    relation: Option<Seq<char>>,
    name: Seq<char>,
    n: nat,
)
    requires
        n <= columns.len(),
    ensures
        last_reference(columns, relation, name, n) is None ==> reference_count(
            columns,
            relation,
            name,
            n,
        ) == 0,
        last_reference(columns, relation, name, n) is Some ==> last_reference(
            columns,
            relation,
            name,
            n,
        )->0 < n && refers(
            columns[last_reference(columns, relation, name, n)->0 as int],
            relation,
            name,
        ),
    decreases n,
{
    if n > 0 {
        lemma_last(columns, relation, name, (n - 1) as nat);
    }
}

/// Two places that a reference means count as two.
proof fn lemma_positions(
    columns: Seq<ColumnModel>,
    relation: Option<Seq<char>>,
    name: Seq<char>,
    n: nat,
    i: nat,
    j: nat,
)
    requires
        i < n <= columns.len(),
        j < n,
        refers(columns[i as int], relation, name),
        refers(columns[j as int], relation, name),
        reference_count(columns, relation, name, n) == 1,
    ensures
        i == j,
    decreases n,
{
    let m = (n - 1) as nat;
    if i < m && j < m {
        if refers(columns[m as int], relation, name) {
            lemma_one_at_least(columns, relation, name, m, i);
        }
        lemma_positions(columns, relation, name, m, i, j);
    } else if i < m {
        lemma_one_at_least(columns, relation, name, m, i);
    } else if j < m {
        lemma_one_at_least(columns, relation, name, m, j);
    }
}

proof fn lemma_one_at_least(
    columns: Seq<ColumnModel>,
    relation: Option<Seq<char>>,
    name: Seq<char>,
    n: nat,
    i: nat,
)
    requires
        i < n <= columns.len(),
        refers(columns[i as int], relation, name),
    ensures
        reference_count(columns, relation, name, n) >= 1,
    decreases n,
{
    if i < n - 1 {
        lemma_one_at_least(columns, relation, name, (n - 1) as nat, i);
    }
}

} // verus!
