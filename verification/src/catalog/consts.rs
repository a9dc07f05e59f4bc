//! Names that the catalog knows.

use vstd::prelude::*;

verus! {

/// The project of a schema that names none.
pub const DEFAULT_PROJECT_NAME: &'static str = "strata";

/// The dataset that the default project starts with.
pub const DEFAULT_DATASET_NAME: &'static str = "public";

} // verus!
