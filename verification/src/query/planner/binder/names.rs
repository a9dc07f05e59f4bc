//! Dotted names.

use vstd::prelude::*;

use crate::catalog::consts::DEFAULT_PROJECT_NAME;
use crate::query::error::{Fault, QueryError};
use crate::query::planner::ast::SqlName;

verus! {

/// The identifiers of a name, where all its parts are identifiers.
pub open spec fn idents_of(name: SqlName) -> Option<Seq<Seq<char>>> {
    if forall|i: int| 0 <= i < name.parts@.len() ==> (#[trigger] name.parts@[i]) is Some {
        Some(Seq::new(name.parts@.len(), |i: int| name.parts@[i]->0@))
    } else {
        None
    }
}

/// The project, dataset and table that a name of exactly three identifiers gives. There are
/// no defaults for shorter names.
pub open spec fn three_parts(name: SqlName) -> Option<(Seq<char>, Seq<char>, Seq<char>)> {
    match idents_of(name) {
        Some(parts) => if parts.len() == 3 {
            Some((parts[0], parts[1], parts[2]))
        } else {
            None
        },
        None => None,
    }
}

/// The project and dataset that the name of a schema gives. A lone dataset is in
/// [`DEFAULT_PROJECT_NAME`].
pub open spec fn dataset_parts(name: SqlName) -> Option<(Seq<char>, Seq<char>)> {
    match idents_of(name) {
        Some(parts) => if parts.len() == 1 {
            Some((DEFAULT_PROJECT_NAME@, parts[0]))
        } else if parts.len() == 2 {
            Some((parts[0], parts[1]))
        } else {
            None
        },
        None => None,
    }
}

/// What is said of a name that does not serve.
pub open spec fn name_fault(what: Seq<char>, name: SqlName) -> Fault {
    Fault::Unsupported(what + name.written@)
}

/// What is said of a name that is not of three identifiers.
pub open spec fn table_name_fault(name: SqlName) -> Fault {
    if idents_of(name) is None {
        name_fault("non-identifier in name: "@, name)
    } else {
        name_fault("name needs project.dataset.table, got: "@, name)
    }
}

/// What is said of a name that is not of one or two identifiers.
pub open spec fn dataset_name_fault(name: SqlName) -> Fault {
    if idents_of(name) is None {
        name_fault("non-identifier in name: "@, name)
    } else {
        name_fault("CREATE SCHEMA needs [project.]dataset, got: "@, name)
    }
}

/// An error that says what was wrong with a name.
pub fn unsupported_name(what: &str, name: &SqlName) -> (r: QueryError)
    ensures
        r@ == name_fault(what@, *name),
{
    QueryError::refused(what, name.written.as_str())
}

/// The identifiers of a name.
pub fn name_idents(name: &SqlName) -> (r: Result<Vec<&str>, QueryError>)
    ensures
        match r {
            Ok(parts) => idents_of(*name) == Some(
                Seq::new(parts@.len(), |i: int| parts@[i]@),
            ),
            Err(e) => idents_of(*name) is None && e@ == name_fault(
                "non-identifier in name: "@,
                *name,
            ),
        },
{
    let mut parts: Vec<&str> = Vec::new();
    let mut i: usize = 0;
    while i < name.parts.len()
        invariant
            i <= name.parts@.len(),
            parts@.len() == i,
            forall|j: int|
                0 <= j < i ==> (#[trigger] name.parts@[j]) is Some && parts@[j]@
                    == name.parts@[j]->0@,
        decreases name.parts@.len() - i,
    {
        match &name.parts[i] {
            Some(s) => parts.push(s.as_str()),
            None => {
                assert(name.parts@[i as int] is None);
                return Err(unsupported_name("non-identifier in name: ", name));
            },
        }
        i = i + 1;
    }
    assert(idents_of(*name)->0 =~= Seq::new(parts@.len(), |i: int| parts@[i]@));
    Ok(parts)
}

/// The parts of a `project.dataset.table` name.
pub fn three_part_name(name: &SqlName) -> (r: Result<(&str, &str, &str), QueryError>)
    ensures
        match r {
            Ok(t) => three_parts(*name) == Some((t.0@, t.1@, t.2@)),
            Err(e) => three_parts(*name) is None && e@ == table_name_fault(*name),
        },
{
    match name_idents(name) {
        Err(e) => Err(e),
        Ok(parts) => if parts.len() == 3 {
            Ok((parts[0], parts[1], parts[2]))
        } else {
            Err(unsupported_name("name needs project.dataset.table, got: ", name))
        },
    }
}

/// The parts of a `[project.]dataset` name.
pub fn dataset_name(name: &SqlName) -> (r: Result<(&str, &str), QueryError>)
    ensures
        match r {
            Ok(t) => dataset_parts(*name) == Some((t.0@, t.1@)),
            Err(e) => dataset_parts(*name) is None && e@ == dataset_name_fault(*name),
        },
{
    match name_idents(name) {
        Err(e) => Err(e),
        Ok(parts) => if parts.len() == 1 {
            Ok((DEFAULT_PROJECT_NAME, parts[0]))
        } else if parts.len() == 2 {
            Ok((parts[0], parts[1]))
        } else {
            Err(unsupported_name("CREATE SCHEMA needs [project.]dataset, got: ", name))
        },
    }
}

} // verus!
