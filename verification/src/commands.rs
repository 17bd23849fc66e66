//! Lookups the app's command handlers share: a project or group by id, and
//! the projects a group starts or stops.

use crate::error::AppError;
use crate::project_store::{project_lookup, project_views, texts, Project, ProjectStore, ProjectView, StoreView, group_lookup};
use vstd::prelude::*;

verus! {

const MODULE: &'static str = "commands";

/// The project with id `id`, or a `STORE_PROJECT_NOT_FOUND` error.
pub fn find_project(store: &ProjectStore, id: &str) -> (r: Result<Project, AppError>)
    ensures
        match project_lookup(store@, id@) {
            Some(p) => r matches Ok(q) && q@ == p,
            None => r matches Err(e) && e.code == "STORE_PROJECT_NOT_FOUND" && e.module == "commands"
                && e.message@ == "Project not found: "@ + id@,
        },
{
    match store.get(id) {
        Some(p) => Ok(p),
        None => Err(AppError::new(MODULE, "STORE_PROJECT_NOT_FOUND", String::from_str("Project not found: ").concat(id))),
    }
}

/// The stored projects with the given ids, in that order, skipping ids
/// that no longer resolve.
pub open spec fn resolve_projects(s: StoreView, ids: Seq<Seq<char>>) -> Seq<ProjectView>
    decreases ids.len(),
{
    if ids.len() == 0 {
        seq![]
    } else {
        let rest = resolve_projects(s, ids.drop_last());
        match project_lookup(s, ids.last()) {
            Some(p) => rest.push(p),
            None => rest,
        }
    }
}

/// The projects of group `group_id` in start order, or a
/// `STORE_PROJECT_NOT_FOUND` error naming the group.
pub fn group_projects(store: &ProjectStore, group_id: &str) -> (r: Result<Vec<Project>, AppError>)
    ensures
        match group_lookup(store@, group_id@) {
            Some(g) => r matches Ok(ps) && project_views(ps@) == resolve_projects(store@, g.project_ids),
            None => r matches Err(e) && e.code == "STORE_PROJECT_NOT_FOUND" && e.module == "commands"
                && e.message@ == "Group not found: "@ + group_id@,
        },
{
    let group = match store.get_group(group_id) {
        Some(g) => g,
        None => {
            return Err(
                AppError::new(MODULE, "STORE_PROJECT_NOT_FOUND", String::from_str("Group not found: ").concat(group_id)),
            );
        },
    };
    let ghost ids = texts(group.project_ids@);
    let mut out: Vec<Project> = Vec::new();
    let mut i: usize = 0;
    while i < group.project_ids.len()
        invariant
            ids == texts(group.project_ids@),
            i <= group.project_ids@.len(),
            project_views(out@) == resolve_projects(store@, ids.take(i as int)),
        decreases group.project_ids@.len() - i,
    {
        proof {
            assert(ids.take(i + 1).drop_last() =~= ids.take(i as int));
        }
        let ghost before = out@;
        match store.get(group.project_ids[i].as_str()) {
            Some(p) => {
                out.push(p);
                assert(project_views(out@) =~= project_views(before).push(out@.last()@));
            },
            None => {},
        }
        i += 1;
    }
    assert(ids.take(ids.len() as int) =~= ids);
    Ok(out)
}

/// The project ids of group `group_id`, or a `STORE_PROJECT_NOT_FOUND`
/// error naming the group.
pub fn group_project_ids(store: &ProjectStore, group_id: &str) -> (r: Result<Vec<String>, AppError>)
    ensures
        match group_lookup(store@, group_id@) {
            Some(g) => r matches Ok(ids) && texts(ids@) == g.project_ids,
            None => r matches Err(e) && e.code == "STORE_PROJECT_NOT_FOUND" && e.module == "commands"
                && e.message@ == "Group not found: "@ + group_id@,
        },
{
    match store.get_group(group_id) {
        Some(g) => Ok(g.project_ids),
        None => Err(AppError::new(MODULE, "STORE_PROJECT_NOT_FOUND", String::from_str("Group not found: ").concat(group_id))),
    }
}

} // verus!
