//! What the monitor does with its workspaces: list, add, remove and connect them.

use crate::assoc::IdMap;
use crate::text::{
    first_difference_decides, name_before, name_le, name_le_total, name_le_transitive,
};
use crate::workspace::{
    entry_views, info_views, lists, loaded, EntryView, InfoView, WorkspaceEntry, WorkspaceInfo,
    Workspaces,
};
use vstd::prelude::*;

verus! {

broadcast use vstd::string::group_string_axioms;

/// The workspaces that the monitor begins with: those of the stored list. Where nothing was stored,
/// or what was stored cannot be read, there are none.
pub fn load_workspaces(stored: Result<Option<Vec<WorkspaceEntry>>, String>) -> (workspaces:
    Workspaces)
    ensures
        workspaces.wf(),
        workspaces@ == match stored {
            Ok(Some(entries)) => loaded(entry_views(entries@)),
            _ => Map::empty(),
        },
{
    match stored {
        Ok(Some(entries)) => Workspaces::from_entries(entries),
        _ => Workspaces::new(),
    }
}

/// The names come in order.
pub open spec fn sorted_by_name(infos: Seq<InfoView>) -> bool {
    forall|i: int, j: int|
        #![trigger infos[i], infos[j]]
        0 <= i < j < infos.len() ==> name_le(infos[i].name, infos[j].name)
}

/// Each workspace is shown once and nothing else is, with whether it is connected.
pub open spec fn shows(
    infos: Seq<InfoView>,
    workspaces: Map<Seq<char>, EntryView>,
    connected: Set<Seq<char>>,
) -> bool {
    &&& forall|i: int|
        0 <= i < infos.len() ==> workspaces.contains_key((#[trigger] infos[i]).id) && infos[i]
            == workspaces[infos[i].id].info(connected.contains(infos[i].id))
    &&& forall|id: Seq<char>| #[trigger]
        workspaces.contains_key(id) ==> exists|i: int|
            0 <= i < infos.len() && (#[trigger] infos[i]).id == id
    &&& forall|i: int, j: int|
        #![trigger infos[i], infos[j]]
        0 <= i < j < infos.len() ==> infos[i].id != infos[j].id
}

/// Puts `info` where its name belongs, behind those with the same name.
fn insert_by_name(infos: &mut Vec<WorkspaceInfo>, info: WorkspaceInfo) -> (place: usize)
    requires
        sorted_by_name(info_views(old(infos)@)),
    ensures
        sorted_by_name(info_views(final(infos)@)),
        place <= old(infos).len(),
        final(infos)@ == old(infos)@.insert(place as int, info),
{
    let mut place: usize = infos.len();
    let ghost before = info_views(infos@);
    while place > 0 && !name_before(infos[place - 1].name.as_str(), info.name.as_str())
        invariant
            place <= infos.len(),
            before == info_views(infos@),
            forall|j: int|
                place <= j < before.len() ==> !name_le((#[trigger] before[j]).name, info@.name),
        decreases place,
    {
        place = place - 1;
        assert(before[place as int] == infos[place as int]@);
    }
    proof {
        if place > 0 {
            assert(before[place - 1] == infos[place - 1]@);
            assert(name_le(before[place - 1].name, info@.name));
        }
    }
    infos.insert(place, info);
    proof {
        let after = info_views(infos@);
        let p = place as int;
        assert(after =~= before.insert(p, info@));
        assert forall|i: int, j: int| #![trigger after[i], after[j]] 0 <= i < j < after.len() implies name_le(
            after[i].name,
            after[j].name,
        ) by {
            if j < p {
                assert(after[i] == before[i] && after[j] == before[j]);
            } else if i > p {
                assert(after[i] == before[i - 1] && after[j] == before[j - 1]);
            } else if j == p {
                assert(after[i] == before[i]);
                if i < p - 1 {
                    assert(name_le(before[i].name, before[p - 1].name));
                    name_le_transitive(before[i].name, before[p - 1].name, info@.name);
                }
            } else if i == p {
                assert(after[j] == before[j - 1]);
                name_le_total(before[j - 1].name, info@.name);
            } else {
                assert(after[i] == before[i] && after[j] == before[j - 1]);
            }
        }
    }
    place
}

/// What is shown is the entries, each with whether it is connected.
#[verifier::opaque]
spec fn from_entries(
    infos: Seq<InfoView>,
    entries: Seq<EntryView>,
    connected: Set<Seq<char>>,
) -> bool {
    forall|k: int|
        #![trigger infos[k]]
        0 <= k < infos.len() ==> exists|j: int|
            0 <= j < entries.len() && infos[k] == (#[trigger] entries[j]).info(
                connected.contains(entries[j].id),
            )
}

/// Each entry is shown.
#[verifier::opaque]
spec fn all_shown(infos: Seq<InfoView>, entries: Seq<EntryView>) -> bool {
    forall|j: int|
        #![trigger entries[j]]
        0 <= j < entries.len() ==> exists|k: int|
            0 <= k < infos.len() && (#[trigger] infos[k]).id == entries[j].id
}

/// Nothing is shown twice.
spec fn shown_once(infos: Seq<InfoView>) -> bool {
    forall|a: int, b: int|
        #![trigger infos[a], infos[b]]
        0 <= a < b < infos.len() ==> infos[a].id != infos[b].id
}

proof fn lemma_from_entries_insert(
    infos: Seq<InfoView>,
    entries: Seq<EntryView>,
    connected: Set<Seq<char>>,
    place: int,
    entry: EntryView,
)
    requires
        from_entries(infos, entries, connected),
        0 <= place <= infos.len(),
    ensures
        from_entries(
            infos.insert(place, entry.info(connected.contains(entry.id))),
            entries.push(entry),
            connected,
        ),
{
    reveal(from_entries);
    let after = infos.insert(place, entry.info(connected.contains(entry.id)));
    let longer = entries.push(entry);
    assert forall|k: int| #![trigger after[k]] 0 <= k < after.len() implies exists|j: int|
        0 <= j < longer.len() && after[k] == (#[trigger] longer[j]).info(
            connected.contains(longer[j].id),
        ) by {
        if k == place {
            assert(longer[entries.len() as int] == entry);
        } else {
            let q = if k < place {
                k
            } else {
                k - 1
            };
            assert(after[k] == infos[q]);
            let j = choose|j: int|
                0 <= j < entries.len() && infos[q] == (#[trigger] entries[j]).info(
                    connected.contains(entries[j].id),
                );
            assert(longer[j] == entries[j]);
        }
    }
}

proof fn lemma_all_shown_insert(
    infos: Seq<InfoView>,
    entries: Seq<EntryView>,
    place: int,
    info: InfoView,
    entry: EntryView,
)
    requires
        all_shown(infos, entries),
        0 <= place <= infos.len(),
        info.id == entry.id,
    ensures
        all_shown(infos.insert(place, info), entries.push(entry)),
{
    reveal(all_shown);
    let after = infos.insert(place, info);
    let longer = entries.push(entry);
    assert forall|j: int| #![trigger longer[j]] 0 <= j < longer.len() implies exists|k: int|
        0 <= k < after.len() && (#[trigger] after[k]).id == longer[j].id by {
        if j == entries.len() {
            assert(after[place].id == longer[j].id);
        } else {
            assert(longer[j] == entries[j]);
            let q = choose|q: int| 0 <= q < infos.len() && (#[trigger] infos[q]).id == entries[j].id;
            let k = if q < place {
                q
            } else {
                q + 1
            };
            assert(after[k] == infos[q]);
        }
    }
}

proof fn lemma_shown_once_insert(
    infos: Seq<InfoView>,
    entries: Seq<EntryView>,
    connected: Set<Seq<char>>,
    place: int,
    info: InfoView,
)
    requires
        from_entries(infos, entries, connected),
        shown_once(infos),
        0 <= place <= infos.len(),
        forall|j: int| 0 <= j < entries.len() ==> (#[trigger] entries[j]).id != info.id,
    ensures
        shown_once(infos.insert(place, info)),
{
    let after = infos.insert(place, info);
    assert forall|q: int| 0 <= q < infos.len() implies (#[trigger] infos[q]).id != info.id by {
        reveal(from_entries);
        let j = choose|j: int|
            0 <= j < entries.len() && infos[q] == (#[trigger] entries[j]).info(
                connected.contains(entries[j].id),
            );
        assert(entries[j].id != info.id);
    }
    assert forall|a: int, b: int| #![trigger after[a], after[b]] 0 <= a < b < after.len() implies after[a].id
        != after[b].id by {
        if a == place {
            assert(after[b] == infos[b - 1]);
        } else if b == place {
            assert(after[a] == infos[a]);
        } else {
            let x = if a < place {
                a
            } else {
                a - 1
            };
            let y = if b < place {
                b
            } else {
                b - 1
            };
            assert(after[a] == infos[x] && after[b] == infos[y]);
            assert(infos[x].id != infos[y].id);
        }
    }
}

proof fn lemma_shows(
    infos: Seq<InfoView>,
    entries: Seq<EntryView>,
    workspaces: Map<Seq<char>, EntryView>,
    connected: Set<Seq<char>>,
)
    requires
        from_entries(infos, entries, connected),
        all_shown(infos, entries),
        shown_once(infos),
        lists(entries, workspaces),
    ensures
        shows(infos, workspaces, connected),
{
    assert forall|k: int| 0 <= k < infos.len() implies workspaces.contains_key(
        (#[trigger] infos[k]).id,
    ) && infos[k] == workspaces[infos[k].id].info(connected.contains(infos[k].id)) by {
        reveal(from_entries);
        let j = choose|j: int|
            0 <= j < entries.len() && infos[k] == (#[trigger] entries[j]).info(
                connected.contains(entries[j].id),
            );
        assert(workspaces[entries[j].id] == entries[j]);
    }
    assert forall|id: Seq<char>| #[trigger] workspaces.contains_key(id) implies exists|k: int|
        0 <= k < infos.len() && (#[trigger] infos[k]).id == id by {
        reveal(all_shown);
        let j = choose|j: int| 0 <= j < entries.len() && (#[trigger] entries[j]).id == id;
        assert(entries[j].id == id);
    }
}

/// The workspaces as they are shown: in the order of their names, each with whether it has a
/// session. Which comes first of two with one name is left open.
pub fn list_workspaces<S>(workspaces: &Workspaces, sessions: &IdMap<S>) -> (infos: Vec<
    WorkspaceInfo,
>)
    requires
        workspaces.wf(),
        sessions.wf(),
    ensures
        shows(info_views(infos@), workspaces@, sessions@.dom()),
        sorted_by_name(info_views(infos@)),
{
    let entries = workspaces.entries();
    let ghost views = entry_views(entries@);
    let mut infos: Vec<WorkspaceInfo> = Vec::new();
    proof {
        reveal(from_entries);
        reveal(all_shown);
    }
    let mut i: usize = 0;
    while i < entries.len()
        invariant
            i <= entries.len(),
            sessions.wf(),
            views == entry_views(entries@),
            lists(views, workspaces@),
            sorted_by_name(info_views(infos@)),
            from_entries(info_views(infos@), views.take(i as int), sessions@.dom()),
            all_shown(info_views(infos@), views.take(i as int)),
            shown_once(info_views(infos@)),
        decreases entries.len() - i,
    {
        let entry = &entries[i];
        let info = entry.info(sessions.contains_key(entry.id.as_str()));
        let ghost before = info_views(infos@);
        let ghost added = info@;
        let place = insert_by_name(&mut infos, info);
        proof {
            let shown = views.take(i as int);
            assert(views[i as int] == entry@);
            assert forall|j: int| 0 <= j < shown.len() implies (#[trigger] shown[j]).id
                != entry@.id by {
                assert(views[j].id != views[i as int].id);
            }
            lemma_from_entries_insert(before, shown, sessions@.dom(), place as int, entry@);
            lemma_all_shown_insert(before, shown, place as int, added, entry@);
            lemma_shown_once_insert(before, shown, sessions@.dom(), place as int, added);
            assert(info_views(infos@) =~= before.insert(place as int, added));
            assert(views.take(i + 1) =~= shown.push(entry@));
        }
        i = i + 1;
    }
    proof {
        assert(views.take(i as int) =~= views);
        lemma_shows(info_views(infos@), views, workspaces@, sessions@.dom());
    }
    infos
}

/// A workspace that was added, and has a session, is shown as connected.
pub proof fn added_is_shown_connected(
    infos: Seq<InfoView>,
    workspaces: Map<Seq<char>, EntryView>,
    connected: Set<Seq<char>>,
    entry: EntryView,
)
    requires
        shows(infos, workspaces.insert(entry.id, entry), connected.insert(entry.id)),
    ensures
        infos.contains(entry.info(true)),
{
    let all = workspaces.insert(entry.id, entry);
    assert(all.contains_key(entry.id));
    let i = choose|i: int| 0 <= i < infos.len() && (#[trigger] infos[i]).id == entry.id;
    assert(infos[i] == entry.info(true));
}

/// A workspace that was removed is not shown.
pub proof fn removed_is_not_shown(
    infos: Seq<InfoView>,
    workspaces: Map<Seq<char>, EntryView>,
    connected: Set<Seq<char>>,
    id: Seq<char>,
)
    requires
        shows(infos, workspaces.remove(id), connected),
    ensures
        forall|i: int| 0 <= i < infos.len() ==> (#[trigger] infos[i]).id != id,
{
    assert forall|i: int| 0 <= i < infos.len() implies (#[trigger] infos[i]).id != id by {
        assert(workspaces.remove(id).contains_key(infos[i].id));
    }
}

/// Adding and then removing a workspace whose identifier is new leaves the others as they were.
pub proof fn removing_undoes_adding(workspaces: Map<Seq<char>, EntryView>, entry: EntryView)
    requires
        !workspaces.contains_key(entry.id),
    ensures
        workspaces.insert(entry.id, entry).remove(entry.id) == workspaces,
{
    assert(workspaces.insert(entry.id, entry).remove(entry.id) =~= workspaces);
}

/// A workspace that has been taken in: its session, and the list to store.
pub struct Admitted<S> {
    pub session: S,
    pub to_store: Vec<WorkspaceEntry>,
}

/// Adding a workspace, once its session has started or has failed to. Only a workspace whose
/// session has started is taken in; the list is then to be stored.
pub fn add_workspace_started<S>(
    workspaces: &mut Workspaces,
    entry: &WorkspaceEntry,
    started: Result<S, String>,
) -> (admitted: Result<Admitted<S>, String>)
    requires
        old(workspaces).wf(),
    ensures
        final(workspaces).wf(),
        match started {
            Ok(session) => {
                &&& final(workspaces)@ == old(workspaces)@.insert(entry.id@, entry@)
                &&& admitted matches Ok(a)
                &&& a.session == session
                &&& lists(entry_views(a.to_store@), final(workspaces)@)
            },
            Err(error) => {
                &&& *final(workspaces) == *old(workspaces)
                &&& admitted matches Err(e)
                &&& e == error
            },
        },
{
    match started {
        Ok(session) => {
            workspaces.insert(entry.clone());
            Ok(Admitted { session, to_store: workspaces.entries() })
        },
        Err(error) => Err(error),
    }
}

/// Adding a workspace, once the list has been stored or has failed to be. Only then does the
/// workspace count as connected.
pub fn add_workspace_stored<S>(
    sessions: &mut IdMap<S>,
    entry: WorkspaceEntry,
    session: S,
    stored: Result<(), String>,
) -> (info: Result<WorkspaceInfo, String>)
    requires
        old(sessions).wf(),
    ensures
        final(sessions).wf(),
        match stored {
            Ok(_) => {
                &&& final(sessions)@ == old(sessions)@.insert(entry.id@, session)
                &&& info matches Ok(i)
                &&& i@ == entry@.info(true)
            },
            Err(error) => {
                &&& *final(sessions) == *old(sessions)
                &&& info matches Err(e)
                &&& e == error
            },
        },
{
    match stored {
        Ok(_) => {
            sessions.insert(entry.id.clone(), session);
            Ok(entry.info(true))
        },
        Err(error) => Err(error),
    }
}

/// Removing a workspace: it is no longer known, and the list is to be stored. One that is not
/// known is removed as well.
pub fn remove_workspace(workspaces: &mut Workspaces, id: &str) -> (to_store: Vec<WorkspaceEntry>)
    requires
        old(workspaces).wf(),
    ensures
        final(workspaces).wf(),
        final(workspaces)@ == old(workspaces)@.remove(id@),
        lists(entry_views(to_store@), final(workspaces)@),
{
    workspaces.remove(id);
    workspaces.entries()
}

/// Removing a workspace, once the list has been stored or has failed to be: the session to end,
/// where there is one. A session goes on where the list was not stored.
pub fn remove_workspace_stored<S>(
    sessions: &mut IdMap<S>,
    id: &str,
    stored: Result<(), String>,
) -> (to_end: Result<Option<S>, String>)
    requires
        old(sessions).wf(),
    ensures
        final(sessions).wf(),
        match stored {
            Ok(_) => {
                &&& final(sessions)@ == old(sessions)@.remove(id@)
                &&& to_end matches Ok(ended)
                &&& ended == if old(sessions)@.contains_key(id@) {
                    Some(old(sessions)@[id@])
                } else {
                    None
                }
            },
            Err(error) => {
                &&& *final(sessions) == *old(sessions)
                &&& to_end matches Err(e)
                &&& e == error
            },
        },
{
    match stored {
        Ok(_) => Ok(sessions.remove(id)),
        Err(error) => Err(error),
    }
}

/// The entry of a workspace that is to be connected or asked for its changes.
pub fn find_workspace(workspaces: &Workspaces, id: &str) -> (entry: Result<WorkspaceEntry, String>)
    requires
        workspaces.wf(),
    ensures
        match entry {
            Ok(e) => workspaces@.contains_key(id@) && e@ == workspaces@[id@],
            Err(error) => !workspaces@.contains_key(id@) && error@ == "workspace not found"@,
        },
{
    match workspaces.get(id) {
        Some(entry) => Ok(entry.clone()),
        None => Err("workspace not found".to_owned()),
    }
}

/// Connecting a workspace, once its session has started or has failed to. A session that it had
/// before gives way to the new one.
pub fn connect_workspace_started<S>(
    sessions: &mut IdMap<S>,
    entry: WorkspaceEntry,
    started: Result<S, String>,
) -> (connected: Result<(), String>)
    requires
        old(sessions).wf(),
    ensures
        final(sessions).wf(),
        match started {
            Ok(session) => {
                &&& final(sessions)@ == old(sessions)@.insert(entry.id@, session)
                &&& connected is Ok
            },
            Err(error) => {
                &&& *final(sessions) == *old(sessions)
                &&& connected matches Err(e)
                &&& e == error
            },
        },
{
    match started {
        Ok(session) => {
            sessions.insert(entry.id, session);
            Ok(())
        },
        Err(error) => Err(error),
    }
}

/// The session of a workspace that something is to be asked of.
pub fn find_session<'a, S>(sessions: &'a IdMap<S>, workspace_id: &str) -> (session: Result<
    &'a S,
    String,
>)
    requires
        sessions.wf(),
    ensures
        match session {
            Ok(s) => sessions@.contains_key(workspace_id@) && *s == sessions@[workspace_id@],
            Err(error) => !sessions@.contains_key(workspace_id@) && error@
                == "workspace not connected"@,
        },
{
    match sessions.get(workspace_id) {
        Some(session) => Ok(session),
        None => Err("workspace not connected".to_owned()),
    }
}

/// Each workspace in the list is shown with the name, the path and the program that are kept of it,
/// whether or not it is connected, and as connected exactly where it has a session.
pub proof fn listed_as_it_is_kept(
    infos: Seq<InfoView>,
    workspaces: Map<Seq<char>, EntryView>,
    connected: Set<Seq<char>>,
    i: int,
)
    requires
        shows(infos, workspaces, connected),
        0 <= i < infos.len(),
    ensures
        workspaces.contains_key(infos[i].id),
        infos[i].id == workspaces[infos[i].id].id,
        infos[i].name == workspaces[infos[i].id].name,
        infos[i].path == workspaces[infos[i].id].path,
        infos[i].codex_bin == workspaces[infos[i].id].codex_bin,
        infos[i].connected <==> connected.contains(infos[i].id),
{
}

/// Each workspace is in the list, in one place, with what is kept of it.
pub proof fn listed_once(
    infos: Seq<InfoView>,
    workspaces: Map<Seq<char>, EntryView>,
    connected: Set<Seq<char>>,
    id: Seq<char>,
)
    requires
        shows(infos, workspaces, connected),
        workspaces.contains_key(id),
    ensures
        exists|i: int|
            0 <= i < infos.len() && (#[trigger] infos[i]).id == id && infos[i].path
                == workspaces[id].path && infos[i].name == workspaces[id].name
                && infos[i].codex_bin == workspaces[id].codex_bin,
        forall|i: int, j: int|
            0 <= i < infos.len() && 0 <= j < infos.len() && (#[trigger] infos[i]).id == id && (
            #[trigger] infos[j]).id == id ==> i == j,
{
    let i = choose|i: int| 0 <= i < infos.len() && (#[trigger] infos[i]).id == id;
    assert(infos[i] == workspaces[infos[i].id].info(connected.contains(infos[i].id)));
    assert forall|a: int, b: int|
        0 <= a < infos.len() && 0 <= b < infos.len() && (#[trigger] infos[a]).id == id && (
        #[trigger] infos[b]).id == id implies a == b by {
        if a < b {
            assert(infos[a].id != infos[b].id);
        } else if b < a {
            assert(infos[b].id != infos[a].id);
        }
    }
}

/// Whether other workspaces are connected, or this one, changes nothing else of how it is listed.
pub proof fn sessions_change_only_connected(
    infos: Seq<InfoView>,
    other_infos: Seq<InfoView>,
    workspaces: Map<Seq<char>, EntryView>,
    connected: Set<Seq<char>>,
    other_connected: Set<Seq<char>>,
    i: int,
    j: int,
)
    requires
        shows(infos, workspaces, connected),
        shows(other_infos, workspaces, other_connected),
        0 <= i < infos.len(),
        0 <= j < other_infos.len(),
        infos[i].id == other_infos[j].id,
    ensures
        infos[i].name == other_infos[j].name,
        infos[i].path == other_infos[j].path,
        infos[i].codex_bin == other_infos[j].codex_bin,
{
    listed_as_it_is_kept(infos, workspaces, connected, i);
    listed_as_it_is_kept(other_infos, workspaces, other_connected, j);
}

/// In a list in order, of two names the one whose first character that differs is the earlier
/// stands first.
pub proof fn earlier_names_stand_first(
    infos: Seq<InfoView>,
    i: int,
    j: int,
    common: Seq<char>,
    x: char,
    y: char,
    left: Seq<char>,
    right: Seq<char>,
)
    requires
        sorted_by_name(infos),
        0 <= i < infos.len(),
        0 <= j < infos.len(),
        infos[i].name == common.push(x) + left,
        infos[j].name == common.push(y) + right,
        (x as u32) < (y as u32),
    ensures
        i < j,
{
    first_difference_decides(common, y, x, right, left);
    assert(infos[i].name[common.len() as int] == x);
    assert(infos[j].name[common.len() as int] == y);
    if j < i {
        assert(name_le(infos[j].name, infos[i].name));
    }
}

} // verus!
