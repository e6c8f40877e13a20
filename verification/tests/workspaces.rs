use codex_monitor::assoc::IdMap;
use codex_monitor::monitor::{
    add_workspace_started, add_workspace_stored, connect_workspace_started, find_session,
    find_workspace, list_workspaces, load_workspaces, remove_workspace, remove_workspace_stored,
};
use codex_monitor::workspace::{entry_of, new_entry, WorkspaceEntry, Workspaces};

fn entry(id: &str, name: &str) -> WorkspaceEntry {
    WorkspaceEntry {
        id: id.to_string(),
        name: name.to_string(),
        path: format!("/{name}"),
        codex_bin: Some(format!("bin-{id}")),
    }
}

fn ids(entries: &[WorkspaceEntry]) -> Vec<String> {
    let mut ids: Vec<String> = entries.iter().map(|entry| entry.id.clone()).collect();
    ids.sort();
    ids
}

fn some_workspaces() -> Workspaces {
    Workspaces::from_entries(vec![entry("1", "zeta"), entry("2", "Alpha"), entry("3", "beta")])
}

#[test]
fn a_table_keeps_one_value_for_each_identifier() {
    let mut table: IdMap<u8> = IdMap::new();
    table.insert("a".to_string(), 1);
    table.insert("b".to_string(), 2);
    table.insert("a".to_string(), 3);
    assert_eq!(table.len(), 2);
    assert_eq!(table.get("a"), Some(&3));
    assert_eq!(table.get("c"), None);
    assert!(table.contains_key("b"));
    assert_eq!(table.remove("a"), Some(3));
    assert_eq!(table.remove("a"), None);
    assert_eq!(table.get("b"), Some(&2));
    assert_eq!(table.len(), 1);
}

#[test]
fn workspaces_are_listed_in_the_order_of_their_names() {
    let mut sessions: IdMap<u8> = IdMap::new();
    sessions.insert("3".to_string(), 0);
    sessions.insert("elsewhere".to_string(), 0);
    let infos = list_workspaces(&some_workspaces(), &sessions);
    let shown: Vec<(&str, &str, bool)> = infos
        .iter()
        .map(|info| (info.id.as_str(), info.name.as_str(), info.connected))
        .collect();
    assert_eq!(shown, [("2", "Alpha", false), ("3", "beta", true), ("1", "zeta", false)]);
    assert_eq!(infos[1].path, "/beta");
    assert_eq!(infos[1].codex_bin.as_deref(), Some("bin-3"));
}

#[test]
fn workspaces_with_one_name_are_all_listed() {
    let workspaces =
        Workspaces::from_entries(vec![entry("1", "x"), entry("2", "x"), entry("3", "a")]);
    let sessions: IdMap<u8> = IdMap::new();
    let infos = list_workspaces(&workspaces, &sessions);
    assert_eq!(infos.len(), 3);
    assert_eq!(infos[0].id, "3");
    let mut rest = vec![infos[1].id.clone(), infos[2].id.clone()];
    rest.sort();
    assert_eq!(rest, ["1", "2"]);
}

#[test]
fn no_workspaces_are_listed_where_there_are_none() {
    let sessions: IdMap<u8> = IdMap::new();
    assert!(list_workspaces(&Workspaces::new(), &sessions).is_empty());
}

#[test]
fn a_stored_list_is_loaded_again() {
    let stored = some_workspaces().entries();
    let loaded = load_workspaces(Ok(Some(stored)));
    assert_eq!(ids(&loaded.entries()), ["1", "2", "3"]);
    assert_eq!(loaded.get("2").unwrap().name, "Alpha");
    assert_eq!(loaded.get("2").unwrap().codex_bin.as_deref(), Some("bin-2"));
    let mut turned = some_workspaces().entries();
    turned.reverse();
    assert_eq!(ids(&Workspaces::from_entries(turned).entries()), ["1", "2", "3"]);
}

#[test]
fn of_two_stored_entries_with_one_identifier_the_later_counts() {
    let loaded = Workspaces::from_entries(vec![entry("1", "old"), entry("1", "new")]);
    assert_eq!(loaded.entries().len(), 1);
    assert_eq!(loaded.get("1").unwrap().name, "new");
}

#[test]
fn nothing_is_loaded_where_nothing_was_stored_or_can_be_read() {
    assert!(load_workspaces(Ok(None)).entries().is_empty());
    assert!(load_workspaces(Err("bad file".to_string())).entries().is_empty());
}

#[test]
fn a_workspace_is_added_once_its_session_has_started() {
    let mut workspaces = some_workspaces();
    let new = entry("4", "new");
    let admitted = add_workspace_started(&mut workspaces, &new, Ok(77u8)).ok().unwrap();
    assert_eq!(admitted.session, 77);
    assert_eq!(ids(&admitted.to_store), ["1", "2", "3", "4"]);
    let mut sessions: IdMap<u8> = IdMap::new();
    let info = add_workspace_stored(&mut sessions, new, admitted.session, Ok(())).unwrap();
    assert!(info.connected);
    assert_eq!(info.id, "4");
    assert_eq!(info.path, "/new");
    assert_eq!(sessions.get("4"), Some(&77));
    let infos = list_workspaces(&workspaces, &sessions);
    assert!(infos.iter().any(|info| info.id == "4" && info.connected));
}

#[test]
fn a_workspace_whose_session_does_not_start_is_not_added() {
    let mut workspaces = some_workspaces();
    let started: Result<u8, String> = Err("no such program".to_string());
    let refused = add_workspace_started(&mut workspaces, &entry("4", "new"), started);
    assert_eq!(refused.err(), Some("no such program".to_string()));
    assert_eq!(ids(&workspaces.entries()), ["1", "2", "3"]);
}

#[test]
fn a_workspace_that_is_not_stored_does_not_count_as_connected() {
    let mut sessions: IdMap<u8> = IdMap::new();
    let full = Err("disk full".to_string());
    let refused = add_workspace_stored(&mut sessions, entry("4", "new"), 1, full);
    assert_eq!(refused.err(), Some("disk full".to_string()));
    assert_eq!(sessions.len(), 0);
}

#[test]
fn a_workspace_is_removed_and_its_session_ended() {
    let mut workspaces = some_workspaces();
    let mut sessions: IdMap<u8> = IdMap::new();
    sessions.insert("2".to_string(), 22);
    assert_eq!(ids(&remove_workspace(&mut workspaces, "2")), ["1", "3"]);
    assert_eq!(remove_workspace_stored(&mut sessions, "2", Ok(())), Ok(Some(22)));
    assert_eq!(sessions.len(), 0);
    assert_eq!(remove_workspace_stored(&mut sessions, "2", Ok(())), Ok(None));
    assert_eq!(ids(&remove_workspace(&mut workspaces, "unknown")), ["1", "3"]);
    assert!(list_workspaces(&workspaces, &sessions).iter().all(|info| info.id != "2"));
}

#[test]
fn a_session_goes_on_where_the_removal_was_not_stored() {
    let mut sessions: IdMap<u8> = IdMap::new();
    sessions.insert("2".to_string(), 22);
    let full = Err("disk full".to_string());
    assert_eq!(
        remove_workspace_stored(&mut sessions, "2", full),
        Err("disk full".to_string()),
    );
    assert_eq!(sessions.get("2"), Some(&22));
}

#[test]
fn removing_undoes_adding() {
    let mut workspaces = some_workspaces();
    workspaces.insert(entry("4", "new"));
    workspaces.remove("4");
    assert_eq!(ids(&workspaces.entries()), ["1", "2", "3"]);
}

#[test]
fn a_workspace_is_found_or_reported_missing() {
    let workspaces = some_workspaces();
    assert_eq!(find_workspace(&workspaces, "3").unwrap().name, "beta");
    assert_eq!(find_workspace(&workspaces, "9").err(), Some("workspace not found".to_string()));
}

#[test]
fn a_session_is_found_or_reported_missing() {
    let mut sessions: IdMap<u8> = IdMap::new();
    sessions.insert("2".to_string(), 22);
    assert_eq!(find_session(&sessions, "2"), Ok(&22));
    assert_eq!(find_session(&sessions, "1"), Err("workspace not connected".to_string()));
}

#[test]
fn connecting_again_replaces_the_session() {
    let mut sessions: IdMap<u8> = IdMap::new();
    assert_eq!(connect_workspace_started(&mut sessions, entry("1", "a"), Ok(5)), Ok(()));
    assert_eq!(connect_workspace_started(&mut sessions, entry("1", "a"), Ok(6)), Ok(()));
    assert_eq!(sessions.get("1"), Some(&6));
    let failed = connect_workspace_started(&mut sessions, entry("1", "a"), Err("no".to_string()));
    assert_eq!(failed, Err("no".to_string()));
    assert_eq!(sessions.get("1"), Some(&6));
}

#[test]
fn a_new_workspace_is_named_after_its_directory() {
    let made = new_entry("/home/me/my project".to_string(), Some("bin".to_string()));
    assert_eq!(made.name, "my project");
    assert_eq!(made.path, "/home/me/my project");
    assert_eq!(made.codex_bin.as_deref(), Some("bin"));
    assert_eq!(new_entry("proj".to_string(), None).name, "proj");
    assert_eq!(new_entry("C:/Users/me".to_string(), None).name, "me");
    assert_eq!(new_entry("a/./../b".to_string(), None).name, "b");
    assert_eq!(new_entry("/usr/bin/".to_string(), None).name, "bin");
    assert_eq!(new_entry("tmp/proj/.//".to_string(), None).name, "proj");
    assert_eq!(new_entry("..name".to_string(), None).name, "..name");
    assert_eq!(new_entry("/home/u/a:b".to_string(), None).name, "a:b");
    assert_eq!(new_entry("C:/x/a:b/".to_string(), None).name, "a:b");
    assert_eq!(new_entry("ab:c".to_string(), None).name, "ab:c");
}

#[test]
fn a_path_without_a_name_gives_a_name_of_its_own() {
    assert_eq!(new_entry("/".to_string(), None).name, "Workspace");
    assert_eq!(new_entry("/.".to_string(), None).name, "Workspace");
    assert_eq!(new_entry(".".to_string(), None).name, "Workspace");
    assert_eq!(new_entry("./".to_string(), None).name, "Workspace");
    assert_eq!(new_entry("././.".to_string(), None).name, "Workspace");
    assert_eq!(new_entry("a/..".to_string(), None).name, "Workspace");
    assert_eq!(new_entry("a/../".to_string(), None).name, "Workspace");
    assert_eq!(new_entry("".to_string(), None).name, "Workspace");
    assert_eq!(entry_of("i".to_string(), None, "p".to_string(), None).name, "Workspace");
    let named = entry_of("i".to_string(), Some("n".to_string()), "p".to_string(), None);
    assert_eq!((named.id.as_str(), named.name.as_str(), named.path.as_str()), ("i", "n", "p"));
}

#[test]
fn new_workspaces_have_identifiers_of_their_own() {
    let a = new_entry("a".to_string(), None).id;
    let b = new_entry("a".to_string(), None).id;
    assert_ne!(a, b);
    for id in [a, b] {
        assert_eq!(id.len(), 36);
        for (i, c) in id.chars().enumerate() {
            match i {
                8 | 13 | 18 | 23 => assert_eq!(c, '-'),
                14 => assert_eq!(c, '4'),
                19 => assert!("89ab".contains(c)),
                _ => assert!("0123456789abcdef".contains(c)),
            }
        }
    }
}
