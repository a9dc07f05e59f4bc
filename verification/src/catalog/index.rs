//! Secondary indexes: the column orders a table can be read in besides that of its row key.

use vstd::prelude::*;

use crate::storage::text::str_eq;

verus! {

/// A secondary index: the table can be produced in the order of `columns`.
#[derive(Debug)]
pub struct Index {
    pub name: String,
    /// The columns the index is keyed on, in order, all ascending.
    pub columns: Vec<usize>,
}

/// What an [`Index`] is, mathematically.
pub struct IndexModel {
    pub name: Seq<char>,
    pub columns: Seq<usize>,
}

impl View for Index {
    type V = IndexModel;

    open spec fn view(&self) -> IndexModel {
        IndexModel { name: self.name@, columns: self.columns@ }
    }
}

/// The models of a sequence of indexes.
pub open spec fn indexes_of(indexes: Seq<Index>) -> Seq<IndexModel> {
    Seq::new(indexes.len(), |i: int| indexes[i]@)
}

/// A copy of some column positions.
pub fn clone_columns(columns: &Vec<usize>) -> (r: Vec<usize>)
    ensures
        r@ == columns@,
{
    let mut out: Vec<usize> = Vec::new();
    let mut i: usize = 0;
    while i < columns.len()
        invariant
            i <= columns@.len(),
            out@ == columns@.take(i as int),
        decreases columns@.len() - i,
    {
        out.push(columns[i]);
        assert(columns@.take(i + 1) =~= columns@.take(i as int).push(columns@[i as int]));
        i = i + 1;
    }
    assert(columns@.take(columns@.len() as int) =~= columns@);
    out
}

impl Clone for Index {
    fn clone(&self) -> (r: Self)
        ensures
            r@ == self@,
    {
        Index { name: self.name.clone(), columns: clone_columns(&self.columns) }
    }
}

/// A copy of each index.
pub fn clone_indexes(indexes: &Vec<Index>) -> (r: Vec<Index>)
    ensures
        indexes_of(r@) == indexes_of(indexes@),
{
    let mut out: Vec<Index> = Vec::new();
    let mut i: usize = 0;
    while i < indexes.len()
        invariant
            i <= indexes@.len(),
            out@.len() == i,
            forall|j: int| 0 <= j < i ==> (#[trigger] out@[j])@ == indexes@[j]@,
        decreases indexes@.len() - i,
    {
        out.push(indexes[i].clone());
        i = i + 1;
    }
    assert(indexes_of(out@) =~= indexes_of(indexes@));
    out
}

/// Whether `list` starts with `head`.
pub fn starts_with(list: &Vec<usize>, head: &[usize]) -> (r: bool)
    ensures
        r == head@.is_prefix_of(list@),
{
    if head.len() > list.len() {
        return false;
    }
    let mut i: usize = 0;
    while i < head.len()
        invariant
            i <= head@.len() <= list@.len(),
            forall|j: int| 0 <= j < i ==> head@[j] == list@[j],
        decreases head@.len() - i,
    {
        if head[i] != list[i] {
            assert(head@[i as int] != list@.subrange(0, head@.len() as int)[i as int]);
            return false;
        }
        i = i + 1;
    }
    assert(head@ =~= list@.subrange(0, head@.len() as int));
    true
}

impl PartialEq for Index {
    /// Equal names and equal columns.
    fn eq(&self, other: &Self) -> (r: bool) {
        if !str_eq(self.name.as_str(), other.name.as_str()) {
            return false;
        }
        if self.columns.len() != other.columns.len() {
            return false;
        }
        let same = starts_with(&self.columns, other.columns.as_slice());
        proof {
            assert(self.columns@.subrange(0, self.columns@.len() as int) =~= self.columns@);
        }
        same
    }
}

impl vstd::std_specs::cmp::PartialEqSpecImpl for Index {
    open spec fn obeys_eq_spec() -> bool {
        true
    }

    open spec fn eq_spec(&self, other: &Self) -> bool {
        self.name@ == other.name@ && self.columns@ == other.columns@
    }
}

} // verus!
