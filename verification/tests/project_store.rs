use easy_term::commands::{find_project, group_project_ids, group_projects};
use easy_term::project_store::{Project, ProjectStore, StoreData};

fn blank_project(name: &str) -> Project {
    Project {
        id: String::new(),
        name: name.to_string(),
        path: format!("/tmp/{name}"),
        command: "pnpm run dev".to_string(),
        port: None,
        env: Vec::new(),
        auto_restart: false,
        group_id: None,
        was_running: false,
        color: None,
        pinned: false,
    }
}

#[test]
fn save_assigns_an_id_and_list_returns_it() {
    let mut store = ProjectStore::new();

    let saved = store.save(blank_project("api"));
    assert!(!saved.id.is_empty());

    let listed = store.list();
    assert_eq!(listed.len(), 1);
    assert_eq!(listed[0].id, saved.id);
    assert_eq!(listed[0].name, "api");
}

#[test]
fn save_with_existing_id_updates_in_place_instead_of_duplicating() {
    let mut store = ProjectStore::new();

    let saved = store.save(blank_project("api"));
    let mut edited = saved.clone();
    edited.command = "pnpm run dev --port 4000".to_string();
    store.save(edited);

    let listed = store.list();
    assert_eq!(listed.len(), 1, "editing must not create a second project");
    assert_eq!(listed[0].command, "pnpm run dev --port 4000");
}

#[test]
fn get_returns_none_for_unknown_id() {
    let store = ProjectStore::new();
    assert!(store.get("does-not-exist").is_none());
}

#[test]
fn delete_removes_the_project_and_its_group_membership() {
    let mut store = ProjectStore::new();

    let group = store.find_or_create_group("backend");
    let mut project = blank_project("api");
    project.group_id = Some(group.id.clone());
    let saved = store.save(project);
    store.sync_all_group_membership();

    assert!(store.get_group(&group.id).unwrap().project_ids.contains(&saved.id));

    store.delete(&saved.id);

    assert!(store.get(&saved.id).is_none());
    assert!(!store.get_group(&group.id).unwrap().project_ids.contains(&saved.id));
}

#[test]
fn persistence_survives_a_reload_from_the_same_path() {
    let saved_id;
    let data: StoreData = {
        let mut store = ProjectStore::new();
        saved_id = store.save(blank_project("api")).id;
        store.data()
    };

    let reloaded = ProjectStore::load(Ok(data));
    let listed = reloaded.list();
    assert_eq!(listed.len(), 1);
    assert_eq!(listed[0].id, saved_id);
}

#[test]
fn a_corrupt_store_file_loads_as_empty_instead_of_panicking() {
    let err = easy_term::error::AppError::new("project_store", "STORE_PARSE_ERROR", "projects.json is corrupt".to_string());
    let store = ProjectStore::load(Err(err));
    assert!(store.list().is_empty());
    assert!(store.list_groups().is_empty());
}

#[test]
fn find_or_create_group_is_case_insensitive_and_idempotent() {
    let mut store = ProjectStore::new();

    let first = store.find_or_create_group("Backend");
    let second = store.find_or_create_group("backend");

    assert_eq!(first.id, second.id);
    assert_eq!(store.list_groups().len(), 1);
}

#[test]
fn sync_all_group_membership_follows_a_project_moving_between_groups() {
    let mut store = ProjectStore::new();

    let backend = store.find_or_create_group("backend");
    let frontend = store.find_or_create_group("frontend");

    let mut project = blank_project("api");
    project.group_id = Some(backend.id.clone());
    let saved = store.save(project);
    store.sync_all_group_membership();

    assert!(store.get_group(&backend.id).unwrap().project_ids.contains(&saved.id));

    let mut moved = saved.clone();
    moved.group_id = Some(frontend.id.clone());
    store.save(moved);
    store.sync_all_group_membership();

    assert!(!store.get_group(&backend.id).unwrap().project_ids.contains(&saved.id));
    assert!(store.get_group(&frontend.id).unwrap().project_ids.contains(&saved.id));
}

#[test]
fn take_was_running_returns_exactly_the_flagged_projects_once() {
    let mut store = ProjectStore::new();

    let a = store.save(blank_project("a"));
    let b = store.save(blank_project("b"));
    store.save(blank_project("c"));

    let running = vec![a.id.clone(), b.id.clone()];
    store.set_was_running(&running);

    let restored = store.take_was_running();
    let mut restored_ids: Vec<String> = restored.iter().map(|p| p.id.clone()).collect();
    restored_ids.sort();
    let mut expected = running.clone();
    expected.sort();
    assert_eq!(restored_ids, expected);

    // Consumed: a second call must come back empty.
    assert!(store.take_was_running().is_empty());
}

#[test]
fn toggle_project_pin_flips_the_flag_and_persists_it() {
    let mut store = ProjectStore::new();
    let saved = store.save(blank_project("api"));
    assert!(!saved.pinned);

    let pinned = store.toggle_project_pin(&saved.id).unwrap();
    assert!(pinned.pinned);
    assert!(store.get(&saved.id).unwrap().pinned);

    let unpinned = store.toggle_project_pin(&saved.id).unwrap();
    assert!(!unpinned.pinned);
}

#[test]
fn toggle_project_pin_on_an_unknown_id_returns_an_error() {
    let mut store = ProjectStore::new();
    assert!(store.toggle_project_pin("does-not-exist").is_err());
}

#[test]
fn toggle_group_pin_flips_the_flag_and_persists_it() {
    let mut store = ProjectStore::new();
    let group = store.find_or_create_group("backend");
    assert!(!group.pinned);

    let pinned = store.toggle_group_pin(&group.id).unwrap();
    assert!(pinned.pinned);
    assert!(store.get_group(&group.id).unwrap().pinned);
}

#[test]
fn not_found_errors_name_the_missing_id() {
    let mut store = ProjectStore::new();
    let e = store.toggle_project_pin("nope").err().unwrap();
    assert_eq!(e.code, "STORE_PROJECT_NOT_FOUND");
    assert_eq!(e.message, "Project not found: nope");
    let e = store.toggle_group_pin("nope").err().unwrap();
    assert_eq!(e.code, "STORE_GROUP_NOT_FOUND");
    assert_eq!(e.message, "Group not found: nope");
}

#[test]
fn new_ids_are_uuids() {
    let mut store = ProjectStore::new();
    let a = store.save(blank_project("a"));
    let b = store.save(blank_project("b"));
    assert_eq!(a.id.len(), 36);
    assert_ne!(a.id, b.id);
    let g = store.find_or_create_group("x");
    assert_eq!(g.id.len(), 36);
}

#[test]
fn save_with_id_keeps_an_existing_id() {
    let mut store = ProjectStore::new();
    let mut p = blank_project("a");
    p.id = "fixed".to_string();
    let saved = store.save_with_id(p, "unused".to_string());
    assert_eq!(saved.id, "fixed");
    let fresh = store.save_with_id(blank_project("b"), "given".to_string());
    assert_eq!(fresh.id, "given");
    assert_eq!(store.list().len(), 2);
}

#[test]
fn set_was_running_clears_everyone_else() {
    let mut store = ProjectStore::new();
    let a = store.save(blank_project("a"));
    let b = store.save(blank_project("b"));
    store.set_was_running(&vec![a.id.clone()]);
    store.set_was_running(&vec![b.id.clone()]);
    let restored = store.take_was_running();
    assert_eq!(restored.len(), 1);
    assert_eq!(restored[0].id, b.id);
}

#[test]
fn sync_is_idempotent_and_keeps_start_order() {
    let mut store = ProjectStore::new();
    let g = store.find_or_create_group("g");
    let mut ids = Vec::new();
    for name in ["a", "b", "c"] {
        let mut p = blank_project(name);
        p.group_id = Some(g.id.clone());
        ids.push(store.save(p).id);
    }
    store.sync_all_group_membership();
    let once = store.get_group(&g.id).unwrap().project_ids;
    store.sync_all_group_membership();
    let twice = store.get_group(&g.id).unwrap().project_ids;
    assert_eq!(once, ids);
    assert_eq!(once, twice);
}

#[test]
fn find_project_reports_a_missing_project() {
    let mut store = ProjectStore::new();
    let a = store.save(blank_project("a"));
    assert_eq!(find_project(&store, &a.id).unwrap().name, "a");
    let e = find_project(&store, "zzz").err().unwrap();
    assert_eq!(e.code, "STORE_PROJECT_NOT_FOUND");
    assert_eq!(e.message, "Project not found: zzz");
}

#[test]
fn group_projects_lists_the_members_that_still_exist_in_order() {
    let mut store = ProjectStore::new();
    let g = store.find_or_create_group("g");
    let mut a = blank_project("a");
    a.group_id = Some(g.id.clone());
    let a = store.save(a);
    let mut b = blank_project("b");
    b.group_id = Some(g.id.clone());
    let b = store.save(b);
    store.sync_all_group_membership();
    let members = group_projects(&store, &g.id).unwrap();
    assert_eq!(members.iter().map(|p| p.id.clone()).collect::<Vec<_>>(), vec![a.id.clone(), b.id.clone()]);
    assert_eq!(group_project_ids(&store, &g.id).unwrap(), vec![a.id, b.id]);
    let e = group_projects(&store, "nope").err().unwrap();
    assert_eq!(e.message, "Group not found: nope");
}
