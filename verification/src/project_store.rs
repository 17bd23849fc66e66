//! The user's projects and groups: create, edit, delete, pin, group
//! membership, and the "was running at quit" flags that let the next launch
//! restore what was up.
//!
//! The store is the in-memory model; it is saved to and loaded from disk
//! (one JSON file, written atomically) outside the library after every
//! change.

use crate::error::AppError;
use crate::text::{eq_ignore_ascii_case, str_eq, text_eq_ignore_ascii_case, texts_contain, to_owned_string};
use vstd::prelude::*;

verus! {

const MODULE: &'static str = "project_store";

/// A project as the user configured it.
#[derive(Debug)]
pub struct Project {
    pub id: String,
    pub name: String,
    pub path: String,
    pub command: String,
    pub port: Option<u16>,
    /// Extra environment variables, as (name, value) rows.
    pub env: Vec<(String, String)>,
    pub auto_restart: bool,
    pub group_id: Option<String>,
    /// Set right before a clean quit for every project that was running, so
    /// the next launch can restore it; cleared as soon as it is read.
    pub was_running: bool,
    /// Accent color (a CSS color string) shown next to the name.
    pub color: Option<String>,
    /// Pinned projects sort above unpinned ones.
    pub pinned: bool,
}

/// A set of projects started and stopped together.
#[derive(Debug)]
pub struct Group {
    pub id: String,
    pub name: String,
    /// Start order for "start all".
    pub project_ids: Vec<String>,
    pub pinned: bool,
}

pub struct ProjectView {
    pub id: Seq<char>,
    pub name: Seq<char>,
    pub path: Seq<char>,
    pub command: Seq<char>,
    pub port: Option<u16>,
    pub env: Seq<(Seq<char>, Seq<char>)>,
    pub auto_restart: bool,
    pub group_id: Option<Seq<char>>,
    pub was_running: bool,
    pub color: Option<Seq<char>>,
    pub pinned: bool,
}

pub struct GroupView {
    pub id: Seq<char>,
    pub name: Seq<char>,
    pub project_ids: Seq<Seq<char>>,
    pub pinned: bool,
}

pub open spec fn opt_text(o: Option<String>) -> Option<Seq<char>> {
    match o {
        Some(s) => Some(s@),
        None => None,
    }
}

pub open spec fn texts(v: Seq<String>) -> Seq<Seq<char>> {
    v.map_values(|s: String| s@)
}

pub open spec fn env_rows(v: Seq<(String, String)>) -> Seq<(Seq<char>, Seq<char>)> {
    v.map_values(|r: (String, String)| (r.0@, r.1@))
}

impl View for Project {
    type V = ProjectView;

    open spec fn view(&self) -> ProjectView {
        ProjectView {
            id: self.id@,
            name: self.name@,
            path: self.path@,
            command: self.command@,
            port: self.port,
            env: env_rows(self.env@),
            auto_restart: self.auto_restart,
            group_id: opt_text(self.group_id),
            was_running: self.was_running,
            color: opt_text(self.color),
            pinned: self.pinned,
        }
    }
}

impl View for Group {
    type V = GroupView;

    open spec fn view(&self) -> GroupView {
        GroupView { id: self.id@, name: self.name@, project_ids: texts(self.project_ids@), pinned: self.pinned }
    }
}

/// A copy of an optional string.
pub fn clone_opt_text(o: &Option<String>) -> (r: Option<String>)
    ensures
        opt_text(r) == opt_text(*o),
{
    match o {
        Some(s) => Some(s.clone()),
        None => None,
    }
}

/// A copy of a list of strings.
pub fn clone_texts(v: &Vec<String>) -> (r: Vec<String>)
    ensures
        texts(r@) == texts(v@),
{
    let mut out: Vec<String> = Vec::new();
    let mut i: usize = 0;
    while i < v.len()
        invariant
            i <= v@.len(),
            texts(out@) == texts(v@.take(i as int)),
        decreases v@.len() - i,
    {
        let ghost before = out@;
        out.push(v[i].clone());
        assert(texts(out@) =~= texts(before).push(v@[i as int]@));
        assert(texts(v@.take(i + 1)) =~= texts(v@.take(i as int)).push(v@[i as int]@));
        i += 1;
    }
    assert(v@.take(v@.len() as int) =~= v@);
    out
}

fn clone_env(v: &Vec<(String, String)>) -> (r: Vec<(String, String)>)
    ensures
        env_rows(r@) == env_rows(v@),
{
    let mut out: Vec<(String, String)> = Vec::new();
    let mut i: usize = 0;
    while i < v.len()
        invariant
            i <= v@.len(),
            env_rows(out@) == env_rows(v@.take(i as int)),
        decreases v@.len() - i,
    {
        let row = &v[i];
        let ghost before = out@;
        out.push((row.0.clone(), row.1.clone()));
        assert(env_rows(out@) =~= env_rows(before).push((v@[i as int].0@, v@[i as int].1@)));
        assert(env_rows(v@.take(i + 1)) =~= env_rows(v@.take(i as int)).push((v@[i as int].0@, v@[i as int].1@)));
        i += 1;
    }
    assert(v@.take(v@.len() as int) =~= v@);
    out
}

impl Clone for Project {
    fn clone(&self) -> (r: Self)
        ensures
            r@ == self@,
    {
        Project {
            id: self.id.clone(),
            name: self.name.clone(),
            path: self.path.clone(),
            command: self.command.clone(),
            port: self.port,
            env: clone_env(&self.env),
            auto_restart: self.auto_restart,
            group_id: clone_opt_text(&self.group_id),
            was_running: self.was_running,
            color: clone_opt_text(&self.color),
            pinned: self.pinned,
        }
    }
}

impl Clone for Group {
    fn clone(&self) -> (r: Self)
        ensures
            r@ == self@,
    {
        Group {
            id: self.id.clone(),
            name: self.name.clone(),
            project_ids: clone_texts(&self.project_ids),
            pinned: self.pinned,
        }
    }
}


// ---------------------------------------------------------------------------
// The store and its model
// ---------------------------------------------------------------------------

/// What is saved to disk: every project and every group.
#[derive(Debug)]
pub struct StoreData {
    pub projects: Vec<Project>,
    pub groups: Vec<Group>,
}

pub struct ProjectStore {
    projects: Vec<Project>,
    groups: Vec<Group>,
}

pub struct StoreView {
    pub projects: Seq<ProjectView>,
    pub groups: Seq<GroupView>,
}

pub open spec fn project_views(ps: Seq<Project>) -> Seq<ProjectView> {
    ps.map_values(|p: Project| p@)
}

pub open spec fn group_views(gs: Seq<Group>) -> Seq<GroupView> {
    gs.map_values(|g: Group| g@)
}

impl View for ProjectStore {
    type V = StoreView;

    closed spec fn view(&self) -> StoreView {
        StoreView { projects: project_views(self.projects@), groups: group_views(self.groups@) }
    }
}

impl View for StoreData {
    type V = StoreView;

    open spec fn view(&self) -> StoreView {
        StoreView { projects: project_views(self.projects@), groups: group_views(self.groups@) }
    }
}

/// The position of the first element of `s` satisfying `pred`.
pub open spec fn first_index<T>(s: Seq<T>, pred: spec_fn(T) -> bool) -> Option<int>
    decreases s.len(),
{
    if s.len() == 0 {
        None
    } else if pred(s[0]) {
        Some(0)
    } else {
        match first_index(s.drop_first(), pred) {
            Some(i) => Some(i + 1),
            None => None,
        }
    }
}

pub proof fn lemma_first_index<T>(s: Seq<T>, pred: spec_fn(T) -> bool, i: int)
    requires
        0 <= i <= s.len(),
        forall|j: int| 0 <= j < i ==> !pred(#[trigger] s[j]),
        i < s.len() ==> pred(s[i]),
    ensures
        first_index(s, pred) == (if i < s.len() { Some(i) } else { None::<int> }),
    decreases s.len(),
{
    if s.len() > 0 && i > 0 {
        assert forall|j: int| 0 <= j < i - 1 implies !pred(#[trigger] s.drop_first()[j]) by {
            assert(s.drop_first()[j] == s[j + 1]);
        }
        lemma_first_index(s.drop_first(), pred, i - 1);
    }
}

pub proof fn lemma_first_index_bounds<T>(s: Seq<T>, pred: spec_fn(T) -> bool)
    ensures
        first_index(s, pred) matches Some(i) ==> 0 <= i < s.len() && pred(s[i]) && forall|j: int|
            0 <= j < i ==> !pred(#[trigger] s[j]),
        first_index(s, pred) is None ==> forall|j: int| 0 <= j < s.len() ==> !pred(#[trigger] s[j]),
    decreases s.len(),
{
    if s.len() > 0 {
        lemma_first_index_bounds(s.drop_first(), pred);
        assert forall|j: int| 1 <= j < s.len() implies s[j] == s.drop_first()[j - 1] by {}
    }
}

/// Where the project with id `id` is stored (the first one, if several).
pub open spec fn project_index(ps: Seq<ProjectView>, id: Seq<char>) -> Option<int> {
    first_index(ps, |p: ProjectView| p.id == id)
}

/// Where the group with id `id` is stored.
pub open spec fn group_index(gs: Seq<GroupView>, id: Seq<char>) -> Option<int> {
    first_index(gs, |g: GroupView| g.id == id)
}

/// The project a lookup by id finds.
pub open spec fn project_lookup(s: StoreView, id: Seq<char>) -> Option<ProjectView> {
    match project_index(s.projects, id) {
        Some(i) => Some(s.projects[i]),
        None => None,
    }
}

/// The group a lookup by id finds.
pub open spec fn group_lookup(s: StoreView, id: Seq<char>) -> Option<GroupView> {
    match group_index(s.groups, id) {
        Some(i) => Some(s.groups[i]),
        None => None,
    }
}

impl ProjectStore {
    /// An empty store.
    pub fn new() -> (s: Self)
        ensures
            s@.projects == Seq::<ProjectView>::empty(),
            s@.groups == Seq::<GroupView>::empty(),
    {
        let s = ProjectStore { projects: Vec::new(), groups: Vec::new() };
        assert(s@.projects =~= Seq::<ProjectView>::empty());
        assert(s@.groups =~= Seq::<GroupView>::empty());
        s
    }

    /// The store for what was read from disk; a read that failed (missing
    /// directory aside, a corrupt or unreadable file) starts empty.
    pub fn load(read: Result<StoreData, AppError>) -> (s: Self)
        ensures
            match read {
                Ok(d) => s@ == d@,
                Err(_) => s@.projects.len() == 0 && s@.groups.len() == 0,
            },
    {
        match read {
            Ok(d) => ProjectStore { projects: d.projects, groups: d.groups },
            Err(_) => ProjectStore::new(),
        }
    }

    /// Everything to save.
    pub fn data(&self) -> (d: StoreData)
        ensures
            d@ == self@,
    {
        StoreData { projects: self.list(), groups: self.list_groups() }
    }

    pub fn list(&self) -> (r: Vec<Project>)
        ensures
            project_views(r@) == self@.projects,
    {
        let mut out: Vec<Project> = Vec::new();
        let mut i: usize = 0;
        while i < self.projects.len()
            invariant
                i <= self.projects@.len(),
                project_views(out@) == project_views(self.projects@.take(i as int)),
            decreases self.projects@.len() - i,
        {
            let ghost before = out@;
            out.push(self.projects[i].clone());
            assert(project_views(out@) =~= project_views(before).push(self.projects@[i as int]@));
            assert(project_views(self.projects@.take(i + 1)) =~= project_views(self.projects@.take(i as int)).push(
                self.projects@[i as int]@,
            ));
            i += 1;
        }
        assert(self.projects@.take(self.projects@.len() as int) =~= self.projects@);
        out
    }

    pub fn list_groups(&self) -> (r: Vec<Group>)
        ensures
            group_views(r@) == self@.groups,
    {
        let mut out: Vec<Group> = Vec::new();
        let mut i: usize = 0;
        while i < self.groups.len()
            invariant
                i <= self.groups@.len(),
                group_views(out@) == group_views(self.groups@.take(i as int)),
            decreases self.groups@.len() - i,
        {
            let ghost before = out@;
            out.push(self.groups[i].clone());
            assert(group_views(out@) =~= group_views(before).push(self.groups@[i as int]@));
            assert(group_views(self.groups@.take(i + 1)) =~= group_views(self.groups@.take(i as int)).push(
                self.groups@[i as int]@,
            ));
            i += 1;
        }
        assert(self.groups@.take(self.groups@.len() as int) =~= self.groups@);
        out
    }

    fn index_of_project(&self, id: &str) -> (r: Option<usize>)
        ensures
            r matches Some(i) ==> project_index(self@.projects, id@) == Some(i as int) && i < self.projects@.len(),
            r is None ==> project_index(self@.projects, id@) is None,
    {
        let mut i: usize = 0;
        while i < self.projects.len()
            invariant
                i <= self.projects@.len(),
                forall|j: int| 0 <= j < i ==> self.projects@[j].id@ != id@,
            decreases self.projects@.len() - i,
        {
            if str_eq(self.projects[i].id.as_str(), id) {
                proof {
                    lemma_first_index(self@.projects, |p: ProjectView| p.id == id@, i as int);
                }
                return Some(i);
            }
            i += 1;
        }
        proof {
            lemma_first_index(self@.projects, |p: ProjectView| p.id == id@, i as int);
        }
        None
    }

    fn index_of_group(&self, id: &str) -> (r: Option<usize>)
        ensures
            r matches Some(i) ==> group_index(self@.groups, id@) == Some(i as int) && i < self.groups@.len(),
            r is None ==> group_index(self@.groups, id@) is None,
    {
        let mut i: usize = 0;
        while i < self.groups.len()
            invariant
                i <= self.groups@.len(),
                forall|j: int| 0 <= j < i ==> self.groups@[j].id@ != id@,
            decreases self.groups@.len() - i,
        {
            if str_eq(self.groups[i].id.as_str(), id) {
                proof {
                    lemma_first_index(self@.groups, |g: GroupView| g.id == id@, i as int);
                }
                return Some(i);
            }
            i += 1;
        }
        proof {
            lemma_first_index(self@.groups, |g: GroupView| g.id == id@, i as int);
        }
        None
    }

    /// The project with id `id`.
    pub fn get(&self, id: &str) -> (r: Option<Project>)
        ensures
            r is Some <==> project_lookup(self@, id@) is Some,
            r matches Some(p) ==> project_lookup(self@, id@) == Some(p@),
    {
        match self.index_of_project(id) {
            Some(i) => Some(self.projects[i].clone()),
            None => None,
        }
    }

    /// The group with id `id`.
    pub fn get_group(&self, id: &str) -> (r: Option<Group>)
        ensures
            r is Some <==> group_lookup(self@, id@) is Some,
            r matches Some(g) ==> group_lookup(self@, id@) == Some(g@),
    {
        match self.index_of_group(id) {
            Some(i) => Some(self.groups[i].clone()),
            None => None,
        }
    }
}


// ---------------------------------------------------------------------------
// Changes, stated over the model
// ---------------------------------------------------------------------------

/// A project about to be saved: one without an id gets `fresh`.
pub open spec fn with_assigned_id(p: ProjectView, fresh: Seq<char>) -> ProjectView {
    if p.id.len() == 0 { ProjectView { id: fresh, ..p } } else { p }
}

/// After saving `p`: it replaces the project with its id, or is added at
/// the end if there is none.
pub open spec fn saved(s: StoreView, p: ProjectView) -> StoreView {
    match project_index(s.projects, p.id) {
        Some(i) => StoreView { projects: s.projects.update(i, p), ..s },
        None => StoreView { projects: s.projects.push(p), ..s },
    }
}

/// `ids` without `id`.
pub open spec fn without_id(ids: Seq<Seq<char>>, id: Seq<char>) -> Seq<Seq<char>>
    decreases ids.len(),
{
    if ids.len() == 0 {
        seq![]
    } else {
        let rest = without_id(ids.drop_last(), id);
        if ids.last() == id { rest } else { rest.push(ids.last()) }
    }
}

/// `ps` without the projects whose id is `id`.
pub open spec fn projects_without(ps: Seq<ProjectView>, id: Seq<char>) -> Seq<ProjectView>
    decreases ps.len(),
{
    if ps.len() == 0 {
        seq![]
    } else {
        let rest = projects_without(ps.drop_last(), id);
        if ps.last().id == id { rest } else { rest.push(ps.last()) }
    }
}

/// After deleting project `id`: it is gone, and so is every group's
/// reference to it.
pub open spec fn deleted(s: StoreView, id: Seq<char>) -> StoreView {
    StoreView {
        projects: projects_without(s.projects, id),
        groups: s.groups.map_values(|g: GroupView| GroupView { project_ids: without_id(g.project_ids, id), ..g }),
    }
}

/// Project `i` with its pin flipped.
pub open spec fn project_pin_toggled(s: StoreView, i: int) -> StoreView {
    StoreView { projects: s.projects.update(i, ProjectView { pinned: !s.projects[i].pinned, ..s.projects[i] }), ..s }
}

/// Group `i` with its pin flipped.
pub open spec fn group_pin_toggled(s: StoreView, i: int) -> StoreView {
    StoreView { groups: s.groups.update(i, GroupView { pinned: !s.groups[i].pinned, ..s.groups[i] }), ..s }
}

/// Where the first group named `name`, ignoring ASCII case, is stored.
pub open spec fn group_name_index(gs: Seq<GroupView>, name: Seq<char>) -> Option<int> {
    first_index(gs, |g: GroupView| eq_ignore_ascii_case(g.name, name))
}

/// A new, empty, unpinned group.
pub open spec fn new_group(id: Seq<char>, name: Seq<char>) -> GroupView {
    GroupView { id, name, project_ids: seq![], pinned: false }
}

/// The store and group after asking for the group named `name`: the first
/// one with that name ignoring ASCII case, or a new one with id `fresh`
/// added at the end.
pub open spec fn group_found_or_created(s: StoreView, name: Seq<char>, fresh: Seq<char>) -> (StoreView, GroupView) {
    match group_name_index(s.groups, name) {
        Some(i) => (s, s.groups[i]),
        None => (StoreView { groups: s.groups.push(new_group(fresh, name)), ..s }, new_group(fresh, name)),
    }
}

/// Text of the "not found" errors.
pub open spec fn not_found_message(what: Seq<char>, id: Seq<char>) -> Seq<char> {
    what + id
}

proof fn lemma_project_views_update(ps: Seq<Project>, i: int, p: Project)
    requires
        0 <= i < ps.len(),
    ensures
        project_views(ps.update(i, p)) == project_views(ps).update(i, p@),
{
    assert(project_views(ps.update(i, p)) =~= project_views(ps).update(i, p@));
}

proof fn lemma_group_views_update(gs: Seq<Group>, i: int, g: Group)
    requires
        0 <= i < gs.len(),
    ensures
        group_views(gs.update(i, g)) == group_views(gs).update(i, g@),
{
    assert(group_views(gs.update(i, g)) =~= group_views(gs).update(i, g@));
}

/// `ids` without `id`.
fn retain_other_ids(ids: &Vec<String>, id: &str) -> (r: Vec<String>)
    ensures
        texts(r@) == without_id(texts(ids@), id@),
{
    let mut out: Vec<String> = Vec::new();
    let mut i: usize = 0;
    while i < ids.len()
        invariant
            i <= ids@.len(),
            texts(out@) == without_id(texts(ids@.take(i as int)), id@),
        decreases ids@.len() - i,
    {
        proof {
            assert(texts(ids@.take(i + 1)).drop_last() =~= texts(ids@.take(i as int)));
        }
        let ghost before = out@;
        if !str_eq(ids[i].as_str(), id) {
            out.push(ids[i].clone());
            assert(texts(out@) =~= texts(before).push(ids@[i as int]@));
        }
        i += 1;
    }
    assert(ids@.take(ids@.len() as int) =~= ids@);
    out
}

impl ProjectStore {
    /// Saves `project`, giving it id `fresh_id` if it has none: it replaces
    /// the stored project with the same id, or is added at the end.
    pub fn save_with_id(&mut self, project: Project, fresh_id: String) -> (r: Project)
        ensures
            r@ == with_assigned_id(project@, fresh_id@),
            final(self)@ == saved(old(self)@, r@),
    {
        let mut project = project;
        if project.id.as_str().is_empty() {
            project.id = fresh_id;
        }
        match self.index_of_project(project.id.as_str()) {
            Some(i) => {
                let stored = project.clone();
                proof {
                    lemma_project_views_update(self.projects@, i as int, stored);
                }
                self.projects.set(i, stored);
            },
            None => {
                let ghost before = self.projects@;
                self.projects.push(project.clone());
                assert(project_views(self.projects@) =~= project_views(before).push(project@));
            },
        }
        project
    }

    /// Saves `project`; one without an id gets a fresh random one.
    pub fn save(&mut self, project: Project) -> (r: Project)
        ensures
            project@.id.len() != 0 ==> r@ == project@,
            project@.id.len() == 0 ==> r@ == (ProjectView { id: r@.id, ..project@ }) && r@.id.len() == 36,
            final(self)@ == saved(old(self)@, r@),
    {
        let fresh = if project.id.as_str().is_empty() { new_id() } else { String::new() };
        self.save_with_id(project, fresh)
    }

    /// Deletes project `id` and removes it from every group.
    pub fn delete(&mut self, id: &str)
        ensures
            final(self)@ == deleted(old(self)@, id@),
            final(self)@.projects == old(self)@.projects.filter(|p: ProjectView| p.id != id@),
    {
        proof { lemma_projects_without_is_filter(old(self)@.projects, id@); }
        let mut kept: Vec<Project> = Vec::new();
        let mut i: usize = 0;
        while i < self.projects.len()
            invariant
                self@ == old(self)@,
                i <= self.projects@.len(),
                project_views(kept@) == projects_without(project_views(self.projects@.take(i as int)), id@),
            decreases self.projects@.len() - i,
        {
            proof {
                assert(project_views(self.projects@.take(i + 1)).drop_last() =~= project_views(self.projects@.take(i as int)));
            }
            let ghost before = kept@;
            if !str_eq(self.projects[i].id.as_str(), id) {
                kept.push(self.projects[i].clone());
                assert(project_views(kept@) =~= project_views(before).push(self.projects@[i as int]@));
            }
            i += 1;
        }
        assert(self.projects@.take(self.projects@.len() as int) =~= self.projects@);
        self.projects = kept;
        let mut j: usize = 0;
        while j < self.groups.len()
            invariant
                j <= self.groups@.len(),
                self.groups@.len() == old(self)@.groups.len(),
                self@.projects == deleted(old(self)@, id@).projects,
                forall|k: int| 0 <= k < j ==> #[trigger] self@.groups[k] == deleted(old(self)@, id@).groups[k],
                forall|k: int| j <= k < self.groups@.len() ==> #[trigger] self@.groups[k] == old(self)@.groups[k],
            decreases self.groups@.len() - j,
        {
            let g = &self.groups[j];
            let updated = Group {
                id: g.id.clone(),
                name: g.name.clone(),
                project_ids: retain_other_ids(&g.project_ids, id),
                pinned: g.pinned,
            };
            let ghost gv = self@.groups;
            proof {
                lemma_group_views_update(self.groups@, j as int, updated);
                assert(gv[j as int] == old(self)@.groups[j as int]);
                assert(updated@ == deleted(old(self)@, id@).groups[j as int]);
            }
            self.groups.set(j, updated);
            assert(self@.groups == gv.update(j as int, updated@));
            j += 1;
        }
        assert(self@.groups =~= deleted(old(self)@, id@).groups);
    }

    /// Flips the pin of project `id`, returning the updated project.
    pub fn toggle_project_pin(&mut self, id: &str) -> (r: Result<Project, AppError>)
        ensures
            match project_index(old(self)@.projects, id@) {
                Some(i) => final(self)@ == project_pin_toggled(old(self)@, i) && (r matches Ok(p)
                    && p@ == final(self)@.projects[i]),
                None => final(self)@ == old(self)@ && (r matches Err(e) && e.code == "STORE_PROJECT_NOT_FOUND"
                    && e.message@ == not_found_message("Project not found: "@, id@)),
            },
    {
        match self.index_of_project(id) {
            Some(i) => {
                let mut p = self.projects[i].clone();
                p.pinned = !p.pinned;
                let stored = p.clone();
                proof {
                    lemma_project_views_update(self.projects@, i as int, stored);
                }
                self.projects.set(i, stored);
                Ok(p)
            },
            None => Err(AppError::new(MODULE, "STORE_PROJECT_NOT_FOUND", String::from_str("Project not found: ").concat(id))),
        }
    }

    /// Flips the pin of group `id`, returning the updated group.
    pub fn toggle_group_pin(&mut self, id: &str) -> (r: Result<Group, AppError>)
        ensures
            match group_index(old(self)@.groups, id@) {
                Some(i) => final(self)@ == group_pin_toggled(old(self)@, i) && (r matches Ok(g)
                    && g@ == final(self)@.groups[i]),
                None => final(self)@ == old(self)@ && (r matches Err(e) && e.code == "STORE_GROUP_NOT_FOUND"
                    && e.message@ == not_found_message("Group not found: "@, id@)),
            },
    {
        match self.index_of_group(id) {
            Some(i) => {
                let mut g = self.groups[i].clone();
                g.pinned = !g.pinned;
                let stored = g.clone();
                proof {
                    lemma_group_views_update(self.groups@, i as int, stored);
                }
                self.groups.set(i, stored);
                Ok(g)
            },
            None => Err(AppError::new(MODULE, "STORE_GROUP_NOT_FOUND", String::from_str("Group not found: ").concat(id))),
        }
    }

    fn index_of_group_named(&self, name: &str) -> (r: Option<usize>)
        ensures
            r matches Some(i) ==> group_name_index(self@.groups, name@) == Some(i as int) && i < self.groups@.len(),
            r is None ==> group_name_index(self@.groups, name@) is None,
    {
        let mut i: usize = 0;
        while i < self.groups.len()
            invariant
                i <= self.groups@.len(),
                forall|j: int| 0 <= j < i ==> !eq_ignore_ascii_case(#[trigger] self.groups@[j].name@, name@),
            decreases self.groups@.len() - i,
        {
            if text_eq_ignore_ascii_case(self.groups[i].name.as_str(), name) {
                proof {
                    lemma_first_index(self@.groups, |g: GroupView| eq_ignore_ascii_case(g.name, name@), i as int);
                }
                return Some(i);
            }
            i += 1;
        }
        proof {
            lemma_first_index(self@.groups, |g: GroupView| eq_ignore_ascii_case(g.name, name@), i as int);
        }
        None
    }

    /// The group named `name` (ignoring ASCII case), or a new empty one with
    /// id `fresh_id`, added at the end.
    pub fn find_or_create_group_with_id(&mut self, name: &str, fresh_id: String) -> (r: Group)
        ensures
            (final(self)@, r@) == group_found_or_created(old(self)@, name@, fresh_id@),
    {
        match self.index_of_group_named(name) {
            Some(i) => self.groups[i].clone(),
            None => {
                let g = Group { id: fresh_id, name: to_owned_string(name), project_ids: Vec::new(), pinned: false };
                assert(texts(g.project_ids@) =~= Seq::<Seq<char>>::empty());
                let ghost before = self.groups@;
                self.groups.push(g.clone());
                assert(group_views(self.groups@) =~= group_views(before).push(g@));
                g
            },
        }
    }

    /// The group named `name` (ignoring ASCII case), or a new empty one with
    /// a fresh random id.
    pub fn find_or_create_group(&mut self, name: &str) -> (r: Group)
        ensures
            (final(self)@, r@) == group_found_or_created(old(self)@, name@, r@.id),
            group_name_index(old(self)@.groups, name@) is None ==> r@.id.len() == 36,
    {
        match self.index_of_group_named(name) {
            Some(i) => self.groups[i].clone(),
            None => self.find_or_create_group_with_id(name, new_id()),
        }
    }
}

/// A fresh random id for a project or group: a version-4 UUID in its
/// 36-character hyphenated form.
///
/// Calls `uuid::Uuid::new_v4` and formats it with `to_string`, which the
/// uuid crate renders hyphenated (`Hyphenated::LENGTH` is 36). The value is
/// random, so only its length is claimed.
#[verifier::external_body]
fn new_id() -> (id: String)
    ensures
        id@.len() == 36,
{
    uuid::Uuid::new_v4().to_string()
}


// ---------------------------------------------------------------------------
// Group membership and restore-on-launch flags
// ---------------------------------------------------------------------------

/// The ids of the projects that point at group `gid`, in store order.
pub open spec fn members(ps: Seq<ProjectView>, gid: Seq<char>) -> Seq<Seq<char>>
    decreases ps.len(),
{
    if ps.len() == 0 {
        seq![]
    } else {
        let rest = members(ps.drop_last(), gid);
        if ps.last().group_id == Some(gid) { rest.push(ps.last().id) } else { rest }
    }
}

/// The ids of `ids` that are among `ms`, in order.
pub open spec fn keep_members(ids: Seq<Seq<char>>, ms: Seq<Seq<char>>) -> Seq<Seq<char>>
    decreases ids.len(),
{
    if ids.len() == 0 {
        seq![]
    } else {
        let rest = keep_members(ids.drop_last(), ms);
        if ms.contains(ids.last()) { rest.push(ids.last()) } else { rest }
    }
}

/// `acc` followed by each id of `ms` it does not hold yet, in order.
pub open spec fn append_missing(acc: Seq<Seq<char>>, ms: Seq<Seq<char>>) -> Seq<Seq<char>>
    decreases ms.len(),
{
    if ms.len() == 0 {
        acc
    } else {
        let a = append_missing(acc, ms.drop_last());
        if a.contains(ms.last()) { a } else { a.push(ms.last()) }
    }
}

/// A group's start order after syncing with its members `ms`: former
/// members that left are dropped, the rest keep their order, newcomers
/// follow in store order.
pub open spec fn synced_ids(ids: Seq<Seq<char>>, ms: Seq<Seq<char>>) -> Seq<Seq<char>> {
    append_missing(keep_members(ids, ms), ms)
}

pub open spec fn synced_group(s: StoreView, g: GroupView) -> GroupView {
    GroupView { project_ids: synced_ids(g.project_ids, members(s.projects, g.id)), ..g }
}

/// After syncing every group's start order with which projects point at it.
pub open spec fn synced(s: StoreView) -> StoreView {
    StoreView { groups: s.groups.map_values(|g: GroupView| synced_group(s, g)), ..s }
}

/// Every project flagged exactly when its id is in `running`.
pub open spec fn flagged(s: StoreView, running: Seq<Seq<char>>) -> StoreView {
    StoreView {
        projects: s.projects.map_values(|p: ProjectView| ProjectView { was_running: running.contains(p.id), ..p }),
        ..s
    }
}

/// The projects flagged as running at the last quit, in order.
pub open spec fn flagged_projects(ps: Seq<ProjectView>) -> Seq<ProjectView>
    decreases ps.len(),
{
    if ps.len() == 0 {
        seq![]
    } else {
        let rest = flagged_projects(ps.drop_last());
        if ps.last().was_running { rest.push(ps.last()) } else { rest }
    }
}

/// Every flag cleared.
pub open spec fn cleared(s: StoreView) -> StoreView {
    StoreView { projects: s.projects.map_values(|p: ProjectView| ProjectView { was_running: false, ..p }), ..s }
}

fn keep_member_ids(ids: &Vec<String>, ms: &Vec<String>) -> (r: Vec<String>)
    ensures
        texts(r@) == keep_members(texts(ids@), texts(ms@)),
{
    let mut out: Vec<String> = Vec::new();
    let mut i: usize = 0;
    while i < ids.len()
        invariant
            i <= ids@.len(),
            texts(out@) == keep_members(texts(ids@.take(i as int)), texts(ms@)),
        decreases ids@.len() - i,
    {
        proof {
            assert(texts(ids@.take(i + 1)).drop_last() =~= texts(ids@.take(i as int)));
        }
        let ghost before = out@;
        if texts_contain(ms, ids[i].as_str()) {
            out.push(ids[i].clone());
            assert(texts(out@) =~= texts(before).push(ids@[i as int]@));
        }
        i += 1;
    }
    assert(ids@.take(ids@.len() as int) =~= ids@);
    out
}

fn append_missing_ids(acc: &mut Vec<String>, ms: &Vec<String>)
    ensures
        texts(final(acc)@) == append_missing(texts(old(acc)@), texts(ms@)),
{
    let mut i: usize = 0;
    while i < ms.len()
        invariant
            i <= ms@.len(),
            texts(acc@) == append_missing(texts(old(acc)@), texts(ms@.take(i as int))),
        decreases ms@.len() - i,
    {
        proof {
            assert(texts(ms@.take(i + 1)).drop_last() =~= texts(ms@.take(i as int)));
        }
        let ghost before = acc@;
        if !texts_contain(acc, ms[i].as_str()) {
            acc.push(ms[i].clone());
            assert(texts(acc@) =~= texts(before).push(ms@[i as int]@));
        }
        i += 1;
    }
    assert(ms@.take(ms@.len() as int) =~= ms@);
}

impl ProjectStore {
    /// The ids of the projects that point at group `gid`, in store order.
    fn member_ids(&self, gid: &str) -> (r: Vec<String>)
        ensures
            texts(r@) == members(self@.projects, gid@),
    {
        let mut out: Vec<String> = Vec::new();
        let mut i: usize = 0;
        while i < self.projects.len()
            invariant
                i <= self.projects@.len(),
                texts(out@) == members(project_views(self.projects@.take(i as int)), gid@),
            decreases self.projects@.len() - i,
        {
            proof {
                assert(project_views(self.projects@.take(i + 1)).drop_last() =~= project_views(self.projects@.take(i as int)));
            }
            let ghost before = out@;
            let p = &self.projects[i];
            let belongs = match &p.group_id {
                Some(g) => str_eq(g.as_str(), gid),
                None => false,
            };
            if belongs {
                out.push(p.id.clone());
                assert(texts(out@) =~= texts(before).push(p.id@));
            }
            i += 1;
        }
        assert(self.projects@.take(self.projects@.len() as int) =~= self.projects@);
        out
    }

    /// Brings every group's start order in line with which projects point
    /// at it: members that left are dropped, newcomers are appended.
    pub fn sync_all_group_membership(&mut self)
        ensures
            final(self)@ == synced(old(self)@),
    {
        let mut j: usize = 0;
        while j < self.groups.len()
            invariant
                j <= self.groups@.len(),
                self.groups@.len() == old(self)@.groups.len(),
                self@.projects == old(self)@.projects,
                forall|k: int| 0 <= k < j ==> #[trigger] self@.groups[k] == synced(old(self)@).groups[k],
                forall|k: int| j <= k < self.groups@.len() ==> #[trigger] self@.groups[k] == old(self)@.groups[k],
            decreases self.groups@.len() - j,
        {
            let ms = self.member_ids(self.groups[j].id.as_str());
            let g = &self.groups[j];
            let mut ids = keep_member_ids(&g.project_ids, &ms);
            append_missing_ids(&mut ids, &ms);
            let updated = Group { id: g.id.clone(), name: g.name.clone(), project_ids: ids, pinned: g.pinned };
            let ghost gv = self@.groups;
            proof {
                lemma_group_views_update(self.groups@, j as int, updated);
                assert(gv[j as int] == old(self)@.groups[j as int]);
                assert(updated@ == synced(old(self)@).groups[j as int]);
            }
            self.groups.set(j, updated);
            assert(self@.groups == gv.update(j as int, updated@));
            j += 1;
        }
        assert(self@.groups =~= synced(old(self)@).groups);
    }

    /// Flags exactly the projects whose id is in `running_ids` as running at
    /// quit, clearing the flag on every other one.
    pub fn set_was_running(&mut self, running_ids: &Vec<String>)
        ensures
            final(self)@ == flagged(old(self)@, texts(running_ids@)),
    {
        let mut i: usize = 0;
        while i < self.projects.len()
            invariant
                i <= self.projects@.len(),
                self.projects@.len() == old(self)@.projects.len(),
                self@.groups == old(self)@.groups,
                forall|k: int| 0 <= k < i ==> #[trigger] self@.projects[k] == flagged(old(self)@, texts(running_ids@)).projects[k],
                forall|k: int| i <= k < self.projects@.len() ==> #[trigger] self@.projects[k] == old(self)@.projects[k],
            decreases self.projects@.len() - i,
        {
            let mut p = self.projects[i].clone();
            p.was_running = texts_contain(running_ids, p.id.as_str());
            let ghost pv = self@.projects;
            proof {
                lemma_project_views_update(self.projects@, i as int, p);
                assert(pv[i as int] == old(self)@.projects[i as int]);
            }
            self.projects.set(i, p);
            assert(self@.projects == pv.update(i as int, p@));
            i += 1;
        }
        assert(self@.projects =~= flagged(old(self)@, texts(running_ids@)).projects);
    }

    /// The projects flagged as running at the last quit; the flags are
    /// cleared (restoring happens once per launch).
    pub fn take_was_running(&mut self) -> (r: Vec<Project>)
        ensures
            project_views(r@) == flagged_projects(old(self)@.projects),
            final(self)@ == (if r@.len() == 0 { old(self)@ } else { cleared(old(self)@) }),
    {
        let mut restored: Vec<Project> = Vec::new();
        let mut i: usize = 0;
        while i < self.projects.len()
            invariant
                self@ == old(self)@,
                i <= self.projects@.len(),
                project_views(restored@) == flagged_projects(project_views(self.projects@.take(i as int))),
            decreases self.projects@.len() - i,
        {
            proof {
                assert(project_views(self.projects@.take(i + 1)).drop_last() =~= project_views(self.projects@.take(i as int)));
            }
            let ghost before = restored@;
            if self.projects[i].was_running {
                restored.push(self.projects[i].clone());
                assert(project_views(restored@) =~= project_views(before).push(self.projects@[i as int]@));
            }
            i += 1;
        }
        assert(self.projects@.take(self.projects@.len() as int) =~= self.projects@);
        if restored.len() == 0 {
            return restored;
        }
        let mut k: usize = 0;
        while k < self.projects.len()
            invariant
                k <= self.projects@.len(),
                self.projects@.len() == old(self)@.projects.len(),
                self@.groups == old(self)@.groups,
                forall|m: int| 0 <= m < k ==> #[trigger] self@.projects[m] == cleared(old(self)@).projects[m],
                forall|m: int| k <= m < self.projects@.len() ==> #[trigger] self@.projects[m] == old(self)@.projects[m],
            decreases self.projects@.len() - k,
        {
            let mut p = self.projects[k].clone();
            p.was_running = false;
            let ghost pv = self@.projects;
            proof {
                lemma_project_views_update(self.projects@, k as int, p);
                assert(pv[k as int] == old(self)@.projects[k as int]);
            }
            self.projects.set(k, p);
            assert(self@.projects == pv.update(k as int, p@));
            k += 1;
        }
        assert(self@.projects =~= cleared(old(self)@).projects);
        restored
    }
}


// ---------------------------------------------------------------------------
// Laws
// ---------------------------------------------------------------------------

/// Reading a project back after saving it gives what was saved.
pub proof fn law_save_then_get(s: StoreView, p: ProjectView)
    ensures
        project_lookup(saved(s, p), p.id) == Some(p),
{
    let pred = |q: ProjectView| q.id == p.id;
    lemma_first_index_bounds(s.projects, pred);
    match project_index(s.projects, p.id) {
        Some(i) => {
            let ps = s.projects.update(i, p);
            assert forall|j: int| 0 <= j < i implies !pred(#[trigger] ps[j]) by {
                assert(ps[j] == s.projects[j]);
            }
            lemma_first_index(ps, pred, i);
        },
        None => {
            let ps = s.projects.push(p);
            assert forall|j: int| 0 <= j < s.projects.len() implies !pred(#[trigger] ps[j]) by {
                assert(ps[j] == s.projects[j]);
            }
            lemma_first_index(ps, pred, s.projects.len() as int);
        },
    }
}

/// Saving a project whose id is already stored replaces it; only a new id
/// adds a project.
pub proof fn law_save_never_duplicates(s: StoreView, p: ProjectView)
    ensures
        project_index(s.projects, p.id) is Some ==> saved(s, p).projects.len() == s.projects.len(),
        project_index(s.projects, p.id) is None ==> saved(s, p).projects.len() == s.projects.len() + 1,
        saved(s, p).groups == s.groups,
{
    lemma_first_index_bounds(s.projects, |q: ProjectView| q.id == p.id);
}

proof fn lemma_projects_without(ps: Seq<ProjectView>, id: Seq<char>)
    ensures
        forall|j: int| 0 <= j < projects_without(ps, id).len() ==> (#[trigger] projects_without(ps, id)[j]).id != id,
    decreases ps.len(),
{
    if ps.len() > 0 {
        lemma_projects_without(ps.drop_last(), id);
    }
}

proof fn lemma_without_id(ids: Seq<Seq<char>>, id: Seq<char>)
    ensures
        !without_id(ids, id).contains(id),
        forall|x: Seq<char>| x != id && ids.contains(x) ==> #[trigger] without_id(ids, id).contains(x),
    decreases ids.len(),
{
    if ids.len() > 0 {
        lemma_without_id(ids.drop_last(), id);
        let rest = without_id(ids.drop_last(), id);
        if ids.last() != id {
            assert(rest.push(ids.last())[rest.len() as int] == ids.last());
        }
        assert forall|x: Seq<char>| x != id && ids.contains(x) implies #[trigger] without_id(ids, id).contains(x) by {
            let k = choose|k: int| 0 <= k < ids.len() && ids[k] == x;
            if k < ids.len() - 1 {
                assert(ids.drop_last()[k] == x);
                assert(rest.contains(x));
                let m = choose|m: int| 0 <= m < rest.len() && rest[m] == x;
                if ids.last() != id {
                    assert(rest.push(ids.last())[m] == x);
                }
            } else {
                assert(ids.last() == x);
                assert(rest.push(ids.last())[rest.len() as int] == x);
            }
        }
        if ids.last() != id {
            assert forall|m: int| 0 <= m < rest.len() + 1 implies rest.push(ids.last())[m] != id by {
                if m < rest.len() {
                    assert(rest.push(ids.last())[m] == rest[m]);
                }
            }
        }
    }
}

/// After deleting a project, it can no longer be found and no group lists
/// it; every other id a group listed is still listed.
pub proof fn law_delete_removes_everywhere(s: StoreView, id: Seq<char>)
    ensures
        project_lookup(deleted(s, id), id) is None,
        forall|j: int| 0 <= j < deleted(s, id).groups.len() ==> !(#[trigger] deleted(s, id).groups[j]).project_ids.contains(id),
        forall|j: int, x: Seq<char>| 0 <= j < s.groups.len() && x != id && #[trigger] s.groups[j].project_ids.contains(x)
            ==> deleted(s, id).groups[j].project_ids.contains(x),
{
    let ps = projects_without(s.projects, id);
    lemma_projects_without(s.projects, id);
    lemma_first_index(ps, |q: ProjectView| q.id == id, ps.len() as int);
    assert forall|j: int| 0 <= j < deleted(s, id).groups.len() implies !(#[trigger] deleted(s, id).groups[j]).project_ids.contains(id) by {
        lemma_without_id(s.groups[j].project_ids, id);
    }
    assert forall|j: int, x: Seq<char>| 0 <= j < s.groups.len() && x != id && #[trigger] s.groups[j].project_ids.contains(x)
        implies deleted(s, id).groups[j].project_ids.contains(x) by {
        lemma_without_id(s.groups[j].project_ids, id);
    }
}

/// Asking for a group by a name that differs only in ASCII case finds the
/// same group and creates nothing.
pub proof fn law_find_or_create_group_is_idempotent(
    s: StoreView,
    name: Seq<char>,
    other_name: Seq<char>,
    fresh: Seq<char>,
    other_fresh: Seq<char>,
)
    requires
        eq_ignore_ascii_case(name, other_name),
    ensures
        ({
            let (s1, g1) = group_found_or_created(s, name, fresh);
            let (s2, g2) = group_found_or_created(s1, other_name, other_fresh);
            s2 == s1 && g2 == g1 && g1.name == (if group_name_index(s.groups, name) is Some {
                s.groups[group_name_index(s.groups, name)->0].name
            } else {
                name
            })
        }),
{
    let p1 = |g: GroupView| eq_ignore_ascii_case(g.name, name);
    let p2 = |g: GroupView| eq_ignore_ascii_case(g.name, other_name);
    assert forall|g: GroupView| #[trigger] p1(g) == p2(g) by {
        if p1(g) {
            assert forall|i: int| 0 <= i < g.name.len() implies crate::text::ascii_lower_code(#[trigger] g.name[i])
                == crate::text::ascii_lower_code(other_name[i]) by {
                assert(crate::text::ascii_lower_code(name[i]) == crate::text::ascii_lower_code(other_name[i]));
            }
        }
        if p2(g) {
            assert forall|i: int| 0 <= i < g.name.len() implies crate::text::ascii_lower_code(#[trigger] g.name[i])
                == crate::text::ascii_lower_code(name[i]) by {
                assert(crate::text::ascii_lower_code(name[i]) == crate::text::ascii_lower_code(other_name[i]));
            }
        }
    }
    lemma_first_index_bounds(s.groups, p1);
    match group_name_index(s.groups, name) {
        Some(i) => {
            assert forall|j: int| 0 <= j < i implies !p2(#[trigger] s.groups[j]) by {
                assert(!p1(s.groups[j]));
            }
            assert(p2(s.groups[i]));
            lemma_first_index(s.groups, p2, i);
        },
        None => {
            let gs = s.groups.push(new_group(fresh, name));
            assert forall|j: int| 0 <= j < s.groups.len() implies !p2(#[trigger] gs[j]) by {
                assert(gs[j] == s.groups[j]);
                assert(!p1(s.groups[j]));
            }
            assert(p2(gs[s.groups.len() as int]));
            lemma_first_index(gs, p2, s.groups.len() as int);
        },
    }
}

proof fn lemma_keep_members(ids: Seq<Seq<char>>, ms: Seq<Seq<char>>)
    ensures
        forall|x: Seq<char>| #[trigger] keep_members(ids, ms).contains(x) ==> ms.contains(x) && ids.contains(x),
        (forall|x: Seq<char>| ids.contains(x) ==> ms.contains(x)) ==> keep_members(ids, ms) == ids,
    decreases ids.len(),
{
    if ids.len() > 0 {
        lemma_keep_members(ids.drop_last(), ms);
        let rest = keep_members(ids.drop_last(), ms);
        assert forall|x: Seq<char>| #[trigger] keep_members(ids, ms).contains(x) implies ms.contains(x) && ids.contains(x) by {
            let k = choose|k: int| 0 <= k < keep_members(ids, ms).len() && keep_members(ids, ms)[k] == x;
            if k < rest.len() {
                assert(rest[k] == x);
                assert(rest.contains(x));
                let m = choose|m: int| 0 <= m < ids.drop_last().len() && ids.drop_last()[m] == x;
                assert(ids[m] == x);
            } else {
                assert(x == ids.last());
                assert(ids[ids.len() - 1] == x);
            }
        }
        if forall|x: Seq<char>| ids.contains(x) ==> ms.contains(x) {
            assert forall|x: Seq<char>| ids.drop_last().contains(x) implies ms.contains(x) by {
                let m = choose|m: int| 0 <= m < ids.drop_last().len() && ids.drop_last()[m] == x;
                assert(ids[m] == x);
            }
            assert(ids.contains(ids.last()));
            assert(ids.drop_last().push(ids.last()) =~= ids);
        }
    }
}

proof fn lemma_append_missing(acc: Seq<Seq<char>>, ms: Seq<Seq<char>>)
    ensures
        forall|x: Seq<char>| #[trigger] append_missing(acc, ms).contains(x) <==> acc.contains(x) || ms.contains(x),
        (forall|x: Seq<char>| ms.contains(x) ==> acc.contains(x)) ==> append_missing(acc, ms) == acc,
    decreases ms.len(),
{
    if ms.len() > 0 {
        lemma_append_missing(acc, ms.drop_last());
        let a = append_missing(acc, ms.drop_last());
        assert forall|x: Seq<char>| #[trigger] append_missing(acc, ms).contains(x) <==> acc.contains(x) || ms.contains(x) by {
            if ms.contains(x) {
                let k = choose|k: int| 0 <= k < ms.len() && ms[k] == x;
                if k < ms.len() - 1 {
                    assert(ms.drop_last()[k] == x);
                    assert(ms.drop_last().contains(x));
                }
            }
            if ms.drop_last().contains(x) {
                let k = choose|k: int| 0 <= k < ms.drop_last().len() && ms.drop_last()[k] == x;
                assert(ms[k] == x);
            }
            if !a.contains(ms.last()) {
                let b = a.push(ms.last());
                assert(b[a.len() as int] == ms.last());
                if a.contains(x) {
                    let k = choose|k: int| 0 <= k < a.len() && a[k] == x;
                    assert(b[k] == x);
                }
                if b.contains(x) {
                    let k = choose|k: int| 0 <= k < b.len() && b[k] == x;
                    if k < a.len() {
                        assert(a[k] == x);
                    }
                }
            }
        }
        if forall|x: Seq<char>| ms.contains(x) ==> acc.contains(x) {
            assert forall|x: Seq<char>| ms.drop_last().contains(x) implies acc.contains(x) by {
                let k = choose|k: int| 0 <= k < ms.drop_last().len() && ms.drop_last()[k] == x;
                assert(ms[k] == x);
            }
            assert(ms.contains(ms.last()));
        }
    }
}

/// After syncing, every group lists exactly the projects that point at it.
pub proof fn law_sync_matches_membership(s: StoreView, j: int, x: Seq<char>)
    requires
        0 <= j < s.groups.len(),
    ensures
        synced(s).groups[j].project_ids.contains(x) <==> members(s.projects, s.groups[j].id).contains(x),
        synced(s).groups[j].id == s.groups[j].id,
{
    let ms = members(s.projects, s.groups[j].id);
    lemma_keep_members(s.groups[j].project_ids, ms);
    lemma_append_missing(keep_members(s.groups[j].project_ids, ms), ms);
    if keep_members(s.groups[j].project_ids, ms).contains(x) {
        assert(ms.contains(x));
    }
}

/// Syncing group membership twice changes nothing more.
pub proof fn law_sync_is_idempotent(s: StoreView)
    ensures
        synced(synced(s)) == synced(s),
{
    let t = synced(s);
    assert forall|j: int| 0 <= j < t.groups.len() implies #[trigger] synced(t).groups[j] == t.groups[j] by {
        let ms = members(s.projects, s.groups[j].id);
        let ids = t.groups[j].project_ids;
        lemma_keep_members(s.groups[j].project_ids, ms);
        lemma_append_missing(keep_members(s.groups[j].project_ids, ms), ms);
        assert forall|x: Seq<char>| ids.contains(x) implies ms.contains(x) by {
            if keep_members(s.groups[j].project_ids, ms).contains(x) {}
        }
        lemma_keep_members(ids, ms);
        assert(keep_members(ids, ms) == ids);
        lemma_append_missing(ids, ms);
        assert forall|x: Seq<char>| ms.contains(x) implies ids.contains(x) by {}
        assert(append_missing(ids, ms) == ids);
    }
    assert(synced(t).groups =~= t.groups);
}

/// The ids of the projects of `ps` whose id is in `running`, in order.
pub open spec fn ids_among(ps: Seq<ProjectView>, running: Seq<Seq<char>>) -> Seq<Seq<char>>
    decreases ps.len(),
{
    if ps.len() == 0 {
        seq![]
    } else {
        let rest = ids_among(ps.drop_last(), running);
        if running.contains(ps.last().id) { rest.push(ps.last().id) } else { rest }
    }
}

proof fn lemma_flagged_round_trip(ps: Seq<ProjectView>, running: Seq<Seq<char>>)
    ensures
        flagged_projects(ps.map_values(|p: ProjectView| ProjectView { was_running: running.contains(p.id), ..p })).map_values(
            |p: ProjectView| p.id,
        ) == ids_among(ps, running),
        flagged_projects(ps.map_values(|p: ProjectView| ProjectView { was_running: false, ..p })).len() == 0,
    decreases ps.len(),
{
    let f = |p: ProjectView| ProjectView { was_running: running.contains(p.id), ..p };
    let c = |p: ProjectView| ProjectView { was_running: false, ..p };
    if ps.len() > 0 {
        lemma_flagged_round_trip(ps.drop_last(), running);
        assert(ps.map_values(f).drop_last() =~= ps.drop_last().map_values(f));
        assert(ps.map_values(c).drop_last() =~= ps.drop_last().map_values(c));
        let rest = flagged_projects(ps.drop_last().map_values(f));
        if running.contains(ps.last().id) {
            assert(rest.push(ps.map_values(f).last()).map_values(|p: ProjectView| p.id) =~= rest.map_values(
                |p: ProjectView| p.id,
            ).push(ps.last().id));
        }
    } else {
        assert(ps.map_values(f).len() == 0);
        assert(ps.map_values(c).len() == 0);
    }
}

/// What is flagged right before quitting is exactly what the next launch
/// restores, and restoring is a one-shot action.
pub proof fn law_was_running_round_trip(s: StoreView, running: Seq<Seq<char>>)
    ensures
        flagged_projects(flagged(s, running).projects).map_values(|p: ProjectView| p.id) == ids_among(s.projects, running),
        flagged_projects(cleared(flagged(s, running)).projects).len() == 0,
{
    lemma_flagged_round_trip(s.projects, running);
    let t = flagged(s, running);
    lemma_flagged_round_trip(t.projects, running);
}

/// Pinning twice leaves a project (or a group) as it was.
pub proof fn law_pin_toggle_twice(s: StoreView, i: int, j: int)
    requires
        0 <= i < s.projects.len(),
        0 <= j < s.groups.len(),
    ensures
        project_pin_toggled(project_pin_toggled(s, i), i) == s,
        group_pin_toggled(group_pin_toggled(s, j), j) == s,
{
    assert(project_pin_toggled(project_pin_toggled(s, i), i).projects =~= s.projects);
    assert(group_pin_toggled(group_pin_toggled(s, j), j).groups =~= s.groups);
}

} // verus!

verus! {

// ---------------------------------------------------------------------------
// Environment variables are named once per project
// ---------------------------------------------------------------------------

/// No two rows of `env` name the same variable.
pub open spec fn env_names_unique(env: Seq<(Seq<char>, Seq<char>)>) -> bool {
    forall|i: int, j: int| 0 <= i < j < env.len() ==> #[trigger] env[i].0 != #[trigger] env[j].0
}

/// Every stored project names each of its variables once.
pub open spec fn store_envs_unique(s: StoreView) -> bool {
    forall|i: int| 0 <= i < s.projects.len() ==> env_names_unique(#[trigger] s.projects[i].env)
}

proof fn lemma_projects_without_envs(ps: Seq<ProjectView>, id: Seq<char>)
    requires
        forall|i: int| 0 <= i < ps.len() ==> env_names_unique(#[trigger] ps[i].env),
    ensures
        forall|i: int| 0 <= i < projects_without(ps, id).len() ==> env_names_unique(
            #[trigger] projects_without(ps, id)[i].env,
        ),
    decreases ps.len(),
{
    if ps.len() > 0 {
        let rest = ps.drop_last();
        assert forall|i: int| 0 <= i < rest.len() implies env_names_unique(#[trigger] rest[i].env) by {
            assert(rest[i] == ps[i]);
        }
        lemma_projects_without_envs(rest, id);
        assert(env_names_unique(ps[ps.len() - 1].env));
    }
}

/// A project's variables are named once, as a map of them names them: no
/// change to the store breaks that, provided a saved project's own
/// variables are named once.
pub proof fn law_env_names_stay_unique(
    s: StoreView,
    p: ProjectView,
    id: Seq<char>,
    i: int,
    running: Seq<Seq<char>>,
    name: Seq<char>,
    fresh: Seq<char>,
)
    requires
        store_envs_unique(s),
    ensures
        env_names_unique(p.env) ==> store_envs_unique(saved(s, p)),
        store_envs_unique(deleted(s, id)),
        0 <= i < s.projects.len() ==> store_envs_unique(project_pin_toggled(s, i)),
        0 <= i < s.groups.len() ==> store_envs_unique(group_pin_toggled(s, i)),
        store_envs_unique(group_found_or_created(s, name, fresh).0),
        store_envs_unique(synced(s)),
        store_envs_unique(flagged(s, running)),
        store_envs_unique(cleared(s)),
{
    if env_names_unique(p.env) {
        lemma_first_index_bounds(s.projects, |q: ProjectView| q.id == p.id);
        let t = saved(s, p);
        assert forall|k: int| 0 <= k < t.projects.len() implies env_names_unique(#[trigger] t.projects[k].env) by {
            match project_index(s.projects, p.id) {
                Some(m) => {
                    if k != m {
                        assert(t.projects[k] == s.projects[k]);
                    }
                },
                None => {
                    if k < s.projects.len() {
                        assert(t.projects[k] == s.projects[k]);
                    }
                },
            }
        }
    }
    lemma_projects_without_envs(s.projects, id);
    if 0 <= i < s.projects.len() {
        let t = project_pin_toggled(s, i);
        assert forall|k: int| 0 <= k < t.projects.len() implies env_names_unique(#[trigger] t.projects[k].env) by {
            assert(t.projects[k].env == s.projects[k].env);
        }
    }
    let t = flagged(s, running);
    assert forall|k: int| 0 <= k < t.projects.len() implies env_names_unique(#[trigger] t.projects[k].env) by {
        assert(t.projects[k].env == s.projects[k].env);
    }
    let t = cleared(s);
    assert forall|k: int| 0 <= k < t.projects.len() implies env_names_unique(#[trigger] t.projects[k].env) by {
        assert(t.projects[k].env == s.projects[k].env);
    }
}

} // verus!

verus! {

proof fn lemma_projects_without_is_filter(ps: Seq<ProjectView>, id: Seq<char>)
    ensures
        projects_without(ps, id) == ps.filter(|p: ProjectView| p.id != id),
    decreases ps.len(),
{
    reveal_with_fuel(Seq::filter, 1);
    if ps.len() > 0 {
        lemma_projects_without_is_filter(ps.drop_last(), id);
    }
}

/// Deleting a project removes exactly the projects with that id: every
/// other stored project is still there, in the same order, and none with
/// the deleted id is left.
pub proof fn law_delete_keeps_every_other_project(s: StoreView, id: Seq<char>)
    ensures
        deleted(s, id).projects == s.projects.filter(|p: ProjectView| p.id != id),
        forall|i: int| 0 <= i < deleted(s, id).projects.len() ==> (#[trigger] deleted(s, id).projects[i]).id != id,
        forall|i: int| 0 <= i < s.projects.len() && s.projects[i].id != id
            ==> deleted(s, id).projects.contains(#[trigger] s.projects[i]),
{
    lemma_projects_without_is_filter(s.projects, id);
    let pred = |p: ProjectView| p.id != id;
    assert forall|i: int| 0 <= i < deleted(s, id).projects.len() implies (#[trigger] deleted(s, id).projects[i]).id != id by {
        s.projects.lemma_filter_pred(pred, i);
    }
    assert forall|i: int| 0 <= i < s.projects.len() && s.projects[i].id != id
        implies deleted(s, id).projects.contains(#[trigger] s.projects[i]) by {
        s.projects.lemma_filter_contains(pred, i);
    }
}

} // verus!
