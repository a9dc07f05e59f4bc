//! The namespace that is there from the start.

use vstd::prelude::*;

use super::consts::{DEFAULT_DATASET_NAME, DEFAULT_PROJECT_NAME};
use super::ids::{DatasetId, ProjectId};
use super::keys::{dataset_path, project_path};
use super::meta::{DatasetMeta, DatasetRow, ProjectMeta, ProjectRow};
use super::state::{Catalog, CatalogModel};
use super::store::{found, has_key, map_of};

verus! {

/// The id of the default project: that of the project of the name, else `fresh`.
pub open spec fn default_project(m: CatalogModel, fresh: ProjectId) -> ProjectId {
    match found(m.projects, project_path(DEFAULT_PROJECT_NAME@)) {
        Some(row) => row.id,
        None => fresh,
    }
}

/// Seeding adds the default project and its dataset where they are not there, and nothing else.
pub open spec fn seeds(
    before: CatalogModel,
    after: CatalogModel,
    project: ProjectId,
    dataset: DatasetId,
) -> bool {
    let p = default_project(before, project);
    let project_key = project_path(DEFAULT_PROJECT_NAME@);
    let dataset_key = dataset_path(p, DEFAULT_DATASET_NAME@);
    &&& map_of(after.projects) == if found(before.projects, project_key) is Some {
        map_of(before.projects)
    } else {
        map_of(before.projects).insert(
            project_key,
            ProjectRow { id: project, name: DEFAULT_PROJECT_NAME@ },
        )
    }
    &&& map_of(after.datasets) == if found(before.datasets, dataset_key) is Some {
        map_of(before.datasets)
    } else {
        map_of(before.datasets).insert(
            dataset_key,
            DatasetRow { id: dataset, name: DEFAULT_DATASET_NAME@ },
        )
    }
    &&& after == (CatalogModel { projects: after.projects, datasets: after.datasets, ..before })
}

impl Catalog {
    /// Make sure that the default project and its dataset exist, under fresh ids where they
    /// did not.
    pub fn seed_default_namespace(&mut self, project: ProjectId, dataset: DatasetId)
        requires
            old(self)@.wf(),
        ensures
            final(self)@.wf(),
            seeds(old(self)@, final(self)@, project, dataset),
    {
        let p = match self.get_project(DEFAULT_PROJECT_NAME) {
            Some(meta) => meta.id,
            None => {
                self.put_project(
                    ProjectMeta { id: project, name: DEFAULT_PROJECT_NAME.to_owned() },
                );
                project
            },
        };
        if self.get_dataset(p, DEFAULT_DATASET_NAME).is_none() {
            self.put_dataset(
                p,
                DatasetMeta { id: dataset, name: DEFAULT_DATASET_NAME.to_owned() },
            );
        }
    }
}

/// A seeded catalog has the default dataset in the default project.
pub proof fn law_seeded_namespace_exists(
    before: CatalogModel,
    after: CatalogModel,
    project: ProjectId,
    dataset: DatasetId,
)
    requires
        before.wf(),
        after.wf(),
        seeds(before, after, project, dataset),
    ensures
        match found(after.projects, project_path(DEFAULT_PROJECT_NAME@)) {
            Some(p) => found(after.datasets, dataset_path(p.id, DEFAULT_DATASET_NAME@)) is Some,
            None => false,
        },
{
    let project_key = project_path(DEFAULT_PROJECT_NAME@);
    let p = default_project(before, project);
    let dataset_key = dataset_path(p, DEFAULT_DATASET_NAME@);
    assert(map_of(after.projects).contains_key(project_key));
    assert(map_of(after.projects)[project_key].id == p);
    assert(map_of(after.datasets).contains_key(dataset_key));
    assert(has_key(after.projects, project_key));
    assert(has_key(after.datasets, dataset_key));
}

} // verus!
