//! Workspaces: what is kept of each, how one is made, stored and listed.

use crate::assoc::{
    lemma_map_of_distinct, lemma_map_of_last, lemma_map_of_push, map_of, IdMap,
};
use vstd::prelude::*;

verus! {

broadcast use vstd::string::group_string_axioms;

/// What is kept of a workspace.
#[derive(Debug)]
pub struct WorkspaceEntry {
    pub id: String,
    pub name: String,
    pub path: String,
    pub codex_bin: Option<String>,
}

pub struct EntryView {
    pub id: Seq<char>,
    pub name: Seq<char>,
    pub path: Seq<char>,
    pub codex_bin: Option<Seq<char>>,
}

/// What is shown of a workspace.
#[derive(Debug)]
pub struct WorkspaceInfo {
    pub id: String,
    pub name: String,
    pub path: String,
    pub connected: bool,
    pub codex_bin: Option<String>,
}

pub struct InfoView {
    pub id: Seq<char>,
    pub name: Seq<char>,
    pub path: Seq<char>,
    pub connected: bool,
    pub codex_bin: Option<Seq<char>>,
}

pub open spec fn optional_view(text: Option<String>) -> Option<Seq<char>> {
    match text {
        Some(s) => Some(s@),
        None => None,
    }
}

impl View for WorkspaceEntry {
    type V = EntryView;

    open spec fn view(&self) -> EntryView {
        EntryView {
            id: self.id@,
            name: self.name@,
            path: self.path@,
            codex_bin: optional_view(self.codex_bin),
        }
    }
}

impl View for WorkspaceInfo {
    type V = InfoView;

    open spec fn view(&self) -> InfoView {
        InfoView {
            id: self.id@,
            name: self.name@,
            path: self.path@,
            connected: self.connected,
            codex_bin: optional_view(self.codex_bin),
        }
    }
}

impl EntryView {
    /// What is shown of the workspace when it is connected, or is not.
    pub open spec fn info(self, connected: bool) -> InfoView {
        InfoView {
            id: self.id,
            name: self.name,
            path: self.path,
            connected,
            codex_bin: self.codex_bin,
        }
    }
}

fn clone_optional(text: &Option<String>) -> (copy: Option<String>)
    ensures
        optional_view(copy) == optional_view(*text),
        match *text {
            Some(s) => copy matches Some(c) && c@ == s@,
            None => copy is None,
        },
{
    match text {
        Some(s) => Some(s.clone()),
        None => None,
    }
}

impl Clone for WorkspaceEntry {
    fn clone(&self) -> (copy: Self)
        ensures
            copy@ == self@,
            copy.id@ == self.id@,
            copy.name@ == self.name@,
            copy.path@ == self.path@,
            match self.codex_bin {
                Some(bin) => copy.codex_bin matches Some(c) && c@ == bin@,
                None => copy.codex_bin is None,
            },
    {
        WorkspaceEntry {
            id: self.id.clone(),
            name: self.name.clone(),
            path: self.path.clone(),
            codex_bin: clone_optional(&self.codex_bin),
        }
    }
}

impl WorkspaceEntry {
    /// What is shown of the workspace when it is connected, or is not.
    pub fn info(&self, connected: bool) -> (info: WorkspaceInfo)
        ensures
            info@ == self@.info(connected),
            info.id@ == self.id@,
            info.name@ == self.name@,
            info.path@ == self.path@,
            info.connected == connected,
            match self.codex_bin {
                Some(bin) => info.codex_bin matches Some(c) && c@ == bin@,
                None => info.codex_bin is None,
            },
    {
        WorkspaceInfo {
            id: self.id.clone(),
            name: self.name.clone(),
            path: self.path.clone(),
            connected,
            codex_bin: clone_optional(&self.codex_bin),
        }
    }
}

/// A digit of a number in base sixteen, in lower case.
pub open spec fn is_hex_digit(c: char) -> bool {
    '0' <= c <= '9' || 'a' <= c <= 'f'
}

/// The text of a random UUID: five groups of hexadecimal digits with hyphens between them, with
/// the digits that mark the version and the variant in their places.
pub open spec fn is_random_uuid(id: Seq<char>) -> bool {
    &&& id.len() == 36
    &&& forall|i: int|
        0 <= i < 36 ==> if i == 8 || i == 13 || i == 18 || i == 23 {
            #[trigger] id[i] == '-'
        } else {
            is_hex_digit(id[i])
        }
    &&& id[14] == '4'
    &&& id[19] == '8' || id[19] == '9' || id[19] == 'a' || id[19] == 'b'
}

/// `uuid::Uuid::new_v4`, as text: a random UUID. Which one is left to chance. Where the operating
/// system has no random bytes to give, the call does not return.
#[verifier::external_body]
fn random_id() -> (id: String)
    ensures
        is_random_uuid(id@),
{
    uuid::Uuid::new_v4().to_string()
}

/// What stands behind the last slash.
pub open spec fn after_last_slash(path: Seq<char>) -> Seq<char>
    decreases path.len(),
{
    if path.len() == 0 || path.last() == '/' {
        seq![]
    } else {
        after_last_slash(path.drop_last()).push(path.last())
    }
}

/// A path without the slashes at its end and the components there that are a single dot.
pub open spec fn trimmed(path: Seq<char>) -> Seq<char>
    decreases path.len(),
{
    let name = after_last_slash(path);
    if name.len() < path.len() && (name.len() == 0 || name == "."@) {
        trimmed(path.take(path.len() - name.len() - 1))
    } else {
        path
    }
}

/// The name that a path ends in, once it is trimmed. The root, a path of nothing or of single dots
/// alone, and one that ends in two dots have none.
pub open spec fn final_name(path: Seq<char>) -> Option<Seq<char>> {
    let name = after_last_slash(trimmed(path));
    if name.len() == 0 || name == "."@ || name == ".."@ {
        None
    } else {
        Some(name)
    }
}

/// What some systems read as the letter of a drive stands in front.
pub open spec fn starts_with_drive(path: Seq<char>) -> bool {
    path.len() >= 2 && ('a' <= path[0] <= 'z' || 'A' <= path[0] <= 'Z') && path[1] == ':'
}

/// A path that ends in the same name on every system: without backslashes, without two slashes in
/// front, and with more than one component where it starts with the letter of a drive.
pub open spec fn portable(path: Seq<char>) -> bool {
    &&& !path.contains('\\')
    &&& !(path.len() >= 2 && path[0] == '/' && path[1] == '/')
    &&& starts_with_drive(path) ==> trimmed(path).contains('/')
}

/// `std::path::Path::file_name`: the last component of the path, where that is a name, as text.
/// Slashes at the end and single dots are passed over; the root, a single dot alone and two dots
/// are no names. How other paths than the portable ones are taken apart depends on the system; a
/// name that comes back is then a part of the path that is not empty.
#[verifier::external_body]
fn file_name(path: &str) -> (name: Option<String>)
    ensures
        portable(path@) ==> optional_view(name) == final_name(path@),
        name matches Some(n) ==> n@.len() > 0 && is_part_of(n@, path@),
{
    match std::path::Path::new(path).file_name() {
        Some(name) => name.to_str().map(|text| text.to_owned()),
        None => None,
    }
}

/// The text occurs in the other, in one piece.
pub open spec fn is_part_of(part: Seq<char>, whole: Seq<char>) -> bool {
    exists|i: int, j: int|
        0 <= i <= j <= whole.len() && part == #[trigger] whole.subrange(i, j)
}

/// The name of a workspace whose directory has this name.
pub open spec fn workspace_name(file_name: Option<Seq<char>>) -> Seq<char> {
    match file_name {
        Some(name) => name,
        None => "Workspace"@,
    }
}

/// The entry of a workspace, from its identifier and the name of its directory.
pub fn entry_of(
    id: String,
    file_name: Option<String>,
    path: String,
    codex_bin: Option<String>,
) -> (entry: WorkspaceEntry)
    ensures
        (entry@ == EntryView {
            id: id@,
            name: workspace_name(optional_view(file_name)),
            path: path@,
            codex_bin: optional_view(codex_bin),
        }),
        entry.id == id,
        entry.path == path,
        entry.codex_bin == codex_bin,
        match file_name {
            Some(name) => entry.name == name,
            None => entry.name@ == "Workspace"@,
        },
{
    let name = match file_name {
        Some(name) => name,
        None => "Workspace".to_owned(),
    };
    WorkspaceEntry { id, name, path, codex_bin }
}

/// The entry of a new workspace, with an identifier of its own and named after its directory.
pub fn new_entry(path: String, codex_bin: Option<String>) -> (entry: WorkspaceEntry)
    ensures
        entry.path@ == path@,
        optional_view(entry.codex_bin) == optional_view(codex_bin),
        entry.path == path,
        entry.codex_bin == codex_bin,
        is_random_uuid(entry.id@),
        portable(path@) ==> entry.name@ == workspace_name(final_name(path@)),
        entry.name@ == "Workspace"@ || (entry.name@.len() > 0 && is_part_of(entry.name@, path@)),
{
    let name = file_name(path.as_str());
    entry_of(random_id(), name, path, codex_bin)
}

pub open spec fn entry_views(entries: Seq<WorkspaceEntry>) -> Seq<EntryView> {
    entries.map_values(|entry: WorkspaceEntry| entry@)
}

pub open spec fn info_views(infos: Seq<WorkspaceInfo>) -> Seq<InfoView> {
    infos.map_values(|info: WorkspaceInfo| info@)
}

/// The entries with the identifiers that they are kept under.
pub open spec fn by_id(entries: Seq<EntryView>) -> Seq<(Seq<char>, EntryView)> {
    entries.map_values(|entry: EntryView| (entry.id, entry))
}

/// The workspaces that a stored list stands for. Of two entries with one identifier the later
/// counts.
pub open spec fn loaded(entries: Seq<EntryView>) -> Map<Seq<char>, EntryView> {
    map_of(by_id(entries))
}

/// The list holds each workspace once and nothing else. In which order is left open.
pub open spec fn lists(entries: Seq<EntryView>, workspaces: Map<Seq<char>, EntryView>) -> bool {
    &&& forall|i: int|
        0 <= i < entries.len() ==> workspaces.contains_key((#[trigger] entries[i]).id)
            && workspaces[entries[i].id] == entries[i]
    &&& forall|id: Seq<char>| #[trigger]
        workspaces.contains_key(id) ==> exists|i: int|
            0 <= i < entries.len() && (#[trigger] entries[i]).id == id
    &&& forall|i: int, j: int|
        #![trigger entries[i], entries[j]]
        0 <= i < j < entries.len() ==> entries[i].id != entries[j].id
}

/// What was stored is loaded again: a list of the workspaces, in whatever order, stands for the
/// workspaces that it was made from.
pub proof fn stored_list_loads_back(
    entries: Seq<EntryView>,
    workspaces: Map<Seq<char>, EntryView>,
)
    requires
        lists(entries, workspaces),
    ensures
        loaded(entries) == workspaces,
{
    let pairs = by_id(entries);
    assert forall|i: int, j: int| #![trigger pairs[i], pairs[j]] 0 <= i < j < pairs.len() implies pairs[i].0
        != pairs[j].0 by {
        assert(entries[i].id != entries[j].id);
    }
    lemma_map_of_distinct(pairs);
    assert forall|id: Seq<char>| #[trigger] loaded(entries).contains_key(id) implies workspaces.contains_key(id)
        && loaded(entries)[id] == workspaces[id] by {
        let i = choose|i: int| 0 <= i < pairs.len() && (#[trigger] pairs[i]).0 == id;
        assert(entries[i].id == id);
    }
    assert forall|id: Seq<char>| #[trigger] workspaces.contains_key(id) implies loaded(entries).contains_key(id) by {
        let i = choose|i: int| 0 <= i < entries.len() && (#[trigger] entries[i]).id == id;
        assert(pairs[i].0 == id);
    }
    assert(loaded(entries) =~= workspaces);
}

/// The workspaces that are known, by identifier.
pub struct Workspaces {
    table: IdMap<WorkspaceEntry>,
}

impl View for Workspaces {
    type V = Map<Seq<char>, EntryView>;

    closed spec fn view(&self) -> Map<Seq<char>, EntryView> {
        self.table@.map_values(|entry: WorkspaceEntry| entry@)
    }
}

impl Workspaces {
    /// Each workspace is kept under its own identifier.
    pub closed spec fn wf(self) -> bool {
        &&& self.table.wf()
        &&& forall|id: Seq<char>| #[trigger]
            self.table@.contains_key(id) ==> self.table@[id].id@ == id
    }

    /// A workspace that is found under an identifier has that identifier.
    pub proof fn kept_under_own_id(self, id: Seq<char>)
        requires
            self.wf(),
            self@.contains_key(id),
        ensures
            self@[id].id == id,
    {
        assert(self.table@.contains_key(id));
    }

    pub fn new() -> (workspaces: Workspaces)
        ensures
            workspaces.wf(),
            workspaces@ == Map::<Seq<char>, EntryView>::empty(),
    {
        let workspaces = Workspaces { table: IdMap::new() };
        assert(workspaces@ =~= Map::<Seq<char>, EntryView>::empty());
        workspaces
    }

    /// The workspaces that a stored list stands for.
    pub fn from_entries(entries: Vec<WorkspaceEntry>) -> (workspaces: Workspaces)
        ensures
            workspaces.wf(),
            workspaces@ == loaded(entry_views(entries@)),
    {
        let ghost all = entries@;
        let mut workspaces = Workspaces::new();
        assert(by_id(entry_views(all)).take(0) =~= seq![]);
        for entry in it: entries
            invariant
                it.seq() == all,
                workspaces.wf(),
                workspaces@ == map_of(by_id(entry_views(all)).take(it.index() as int)),
        {
            let ghost i = it.index() as int;
            assert(entry == all[i]);
            workspaces.insert(entry);
            proof {
                let pairs = by_id(entry_views(all));
                lemma_map_of_push(pairs.take(i), pairs[i].0, pairs[i].1);
                assert(pairs.take(i + 1) =~= pairs.take(i).push(pairs[i]));
            }
        }
        assert(by_id(entry_views(all)).take(all.len() as int) =~= by_id(entry_views(all)));
        workspaces
    }

    pub fn get(&self, id: &str) -> (entry: Option<&WorkspaceEntry>)
        requires
            self.wf(),
        ensures
            match entry {
                Some(e) => self@.contains_key(id@) && e@ == self@[id@],
                None => !self@.contains_key(id@),
            },
    {
        self.table.get(id)
    }

    /// Keeps a workspace, in place of the one with its identifier.
    pub fn insert(&mut self, entry: WorkspaceEntry)
        requires
            old(self).wf(),
        ensures
            final(self).wf(),
            final(self)@ == old(self)@.insert(entry.id@, entry@),
    {
        let ghost before = self@;
        self.table.insert(entry.id.clone(), entry);
        assert(self@ =~= before.insert(entry.id@, entry@));
    }

    pub fn remove(&mut self, id: &str)
        requires
            old(self).wf(),
        ensures
            final(self).wf(),
            final(self)@ == old(self)@.remove(id@),
    {
        let ghost before = self@;
        let _ = self.table.remove(id);
        assert(self@ =~= before.remove(id@));
    }

    /// The list to store.
    pub fn entries(&self) -> (entries: Vec<WorkspaceEntry>)
        requires
            self.wf(),
        ensures
            lists(entry_views(entries@), self@),
    {
        let mut entries: Vec<WorkspaceEntry> = Vec::new();
        let n: usize = self.table.len();
        let ghost pairs = self.table.pairs();
        let mut i: usize = 0;
        while i < n
            invariant
                i <= n,
                n == pairs.len(),
                pairs == self.table.pairs(),
                entries.len() == i,
                forall|j: int| 0 <= j < i ==> (#[trigger] entries[j])@ == pairs[j].1@,
            decreases n - i,
        {
            entries.push(self.table.value_at(i).clone());
            i = i + 1;
        }
        proof {
            self.table.lemma_pairs();
            let views = entry_views(entries@);
            assert forall|j: int| 0 <= j < views.len() implies (#[trigger] views[j]) == pairs[j].1@
                && views[j].id == pairs[j].0 by {
                assert(entries[j]@ == pairs[j].1@);
                assert(self.table@.contains_key(pairs[j].0));
            }
            assert forall|id: Seq<char>| #[trigger] self@.contains_key(id) implies exists|j: int|
                0 <= j < views.len() && (#[trigger] views[j]).id == id by {
                assert(self.table@.contains_key(id));
                let j = choose|j: int| 0 <= j < pairs.len() && (#[trigger] pairs[j]).0 == id;
                assert(views[j].id == id);
            }
            assert forall|a: int, b: int| #![trigger views[a], views[b]] 0 <= a < b < views.len() implies views[a].id
                != views[b].id by {
                assert(pairs[a].0 != pairs[b].0);
            }
            assert(lists(views, self@));
        }
        entries
    }
}

/// What is shown of a workspace is what is kept of it, connected or not; only whether it is
/// connected is added.
pub proof fn shown_as_it_is_kept(entry: EntryView, connected: bool)
    ensures
        entry.info(connected).id == entry.id,
        entry.info(connected).name == entry.name,
        entry.info(connected).path == entry.path,
        entry.info(connected).codex_bin == entry.codex_bin,
        entry.info(connected).connected == connected,
{
}

/// A name that is there is taken as it is; a workspace without one is called `Workspace`.
pub proof fn directory_names_workspace(name: Seq<char>)
    ensures
        workspace_name(Some(name)) == name,
        workspace_name(None) == "Workspace"@,
{
}

proof fn lemma_after_last_slash(directory: Seq<char>, name: Seq<char>)
    requires
        !name.contains('/'),
    ensures
        after_last_slash(directory.push('/') + name) == name,
        after_last_slash(name) == name,
    decreases name.len(),
{
    let path = directory.push('/') + name;
    if name.len() == 0 {
        assert(path =~= directory.push('/'));
        assert(after_last_slash(path) =~= name);
        assert(after_last_slash(name) =~= name);
    } else {
        let shorter = name.drop_last();
        assert forall|i: int| 0 <= i < shorter.len() implies #[trigger] shorter[i] != '/' by {
            assert(name.contains(name[i]));
        }
        lemma_after_last_slash(directory, shorter);
        assert(name.contains(name.last()));
        assert(path.last() == name.last());
        assert(path.drop_last() =~= directory.push('/') + shorter);
        assert(shorter.push(name.last()) =~= name);
    }
}

/// A workspace is named after the last component of its path, in whatever directory that stands.
pub proof fn named_after_last_component(directory: Seq<char>, name: Seq<char>)
    requires
        name.len() > 0,
        !name.contains('/'),
        name != "."@,
        name != ".."@,
    ensures
        final_name(directory.push('/') + name) == Some(name),
        final_name(name) == Some(name),
{
    lemma_after_last_slash(directory, name);
}

/// Slashes and single dots at the end of a path change nothing of its name.
pub proof fn end_of_path_is_passed_over(path: Seq<char>)
    ensures
        final_name(path.push('/')) == final_name(path),
        final_name(path.push('/').push('.')) == final_name(path),
{
    reveal_strlit(".");
    let dot = "."@;
    assert(dot.len() == 1 && dot[0] == '.');
    lemma_after_last_slash(path, Seq::empty());
    assert(path.push('/') + Seq::<char>::empty() =~= path.push('/'));
    assert(path.push('/').take(path.len() as int) =~= path);
    lemma_after_last_slash(path, dot);
    assert(path.push('/') + dot =~= path.push('/').push('.'));
    assert(path.push('/').push('.').take(path.len() as int) =~= path);
}

/// A path of nothing, the root, a single dot, and a path that ends in two dots have no name.
pub proof fn no_name_without_last_component(directory: Seq<char>)
    ensures
        final_name(Seq::<char>::empty()) is None,
        final_name(Seq::<char>::empty().push('/')) is None,
        final_name("."@) is None,
        final_name(".."@) is None,
        final_name(directory.push('/') + ".."@) is None,
{
    reveal_strlit(".");
    reveal_strlit("..");
    let dot = "."@;
    let dots = ".."@;
    assert(dot.len() == 1 && dot[0] == '.');
    assert(dots.len() == 2 && dots[0] == '.' && dots[1] == '.');
    lemma_after_last_slash(directory, dot);
    lemma_after_last_slash(directory, dots);
    end_of_path_is_passed_over(Seq::empty());
}

/// Paths from the root, and those that no drive stands in front of, are portable, as long as they
/// have no backslash and no second slash in front.
pub proof fn ordinary_paths_are_portable(path: Seq<char>)
    requires
        !path.contains('\\'),
        path.len() >= 2 ==> !(path[0] == '/' && path[1] == '/'),
        path.len() >= 2 && path[1] == ':' ==> !(65 <= path[0] as u32 <= 90) && !(97 <= path[0] as u32
            <= 122),
    ensures
        portable(path),
{
}

/// Of the entries of a stored list with one identifier the last is loaded.
pub proof fn last_entry_is_loaded(entries: Seq<EntryView>, i: int)
    requires
        0 <= i < entries.len(),
        forall|j: int| i < j < entries.len() ==> (#[trigger] entries[j]).id != entries[i].id,
    ensures
        loaded(entries).contains_key(entries[i].id),
        loaded(entries)[entries[i].id] == entries[i],
{
    let pairs = by_id(entries);
    assert forall|j: int| i < j < pairs.len() implies (#[trigger] pairs[j]).0 != pairs[i].0 by {
        assert(entries[j].id != entries[i].id);
    }
    lemma_map_of_last(pairs, i);
}

/// What is loaded under an identifier is an entry of the stored list, and one with that identifier.
pub proof fn only_stored_entries_are_loaded(entries: Seq<EntryView>, id: Seq<char>)
    requires
        loaded(entries).contains_key(id),
    ensures
        loaded(entries)[id].id == id,
        entries.contains(loaded(entries)[id]),
    decreases entries.len(),
{
    if entries.len() > 0 {
        let rest = entries.drop_last();
        let last = entries.last();
        assert(entries =~= rest.push(last));
        assert(by_id(entries) =~= by_id(rest).push((last.id, last)));
        lemma_map_of_push(by_id(rest), last.id, last);
        if id == last.id {
            assert(entries[entries.len() - 1] == last);
        } else {
            only_stored_entries_are_loaded(rest, id);
            let i = choose|i: int| 0 <= i < rest.len() && rest[i] == loaded(rest)[id];
            assert(entries[i] == rest[i]);
        }
    }
}

/// A list to store has an entry for a workspace exactly where the workspace is known, and the entry
/// is what is known of it.
pub proof fn list_holds_what_is_known(
    entries: Seq<EntryView>,
    workspaces: Map<Seq<char>, EntryView>,
    entry: EntryView,
)
    requires
        lists(entries, workspaces),
    ensures
        entries.contains(entry) ==> workspaces.contains_key(entry.id) && workspaces[entry.id]
            == entry,
        workspaces.contains_key(entry.id) && workspaces[entry.id] == entry ==> entries.contains(
            entry,
        ),
        entries.no_duplicates(),
{
    if workspaces.contains_key(entry.id) && workspaces[entry.id] == entry {
        let i = choose|i: int| 0 <= i < entries.len() && (#[trigger] entries[i]).id == entry.id;
        assert(workspaces[entries[i].id] == entries[i]);
    }
    if entries.contains(entry) {
        let i = choose|i: int| 0 <= i < entries.len() && entries[i] == entry;
        assert(workspaces[entries[i].id] == entries[i]);
    }
    assert forall|i: int, j: int|
        0 <= i < entries.len() && 0 <= j < entries.len() && i != j implies entries[i]
        != entries[j] by {
        if i < j {
            assert(entries[i].id != entries[j].id);
        } else {
            assert(entries[j].id != entries[i].id);
        }
    }
}

/// A workspace is seen with all that is kept or shown of it, and a list with each of its places.
pub proof fn workspaces_are_seen_as_they_are(
    entry: WorkspaceEntry,
    info: WorkspaceInfo,
    entries: Seq<WorkspaceEntry>,
    infos: Seq<WorkspaceInfo>,
    i: int,
)
    ensures
        entry@.id == entry.id@,
        entry@.name == entry.name@,
        entry@.path == entry.path@,
        match entry.codex_bin {
            Some(bin) => entry@.codex_bin == Some(bin@),
            None => entry@.codex_bin is None,
        },
        info@.id == info.id@,
        info@.name == info.name@,
        info@.path == info.path@,
        info@.connected == info.connected,
        match info.codex_bin {
            Some(bin) => info@.codex_bin == Some(bin@),
            None => info@.codex_bin is None,
        },
        entry_views(entries).len() == entries.len(),
        info_views(infos).len() == infos.len(),
        0 <= i < entries.len() ==> entry_views(entries)[i] == entries[i]@,
        0 <= i < infos.len() ==> info_views(infos)[i] == infos[i]@,
{
}

/// An identifier of a new workspace has groups of eight, four, four, four and twelve digits in base
/// sixteen, and says that it was drawn at random.
pub proof fn identifier_has_five_groups(id: Seq<char>, i: int)
    requires
        is_random_uuid(id),
        0 <= i < 36,
    ensures
        id.len() == 36,
        id[i] == '-' <==> i == 8 || i == 13 || i == 18 || i == 23,
        id[i] != '-' ==> 48 <= id[i] as u32 <= 57 || 97 <= id[i] as u32 <= 102,
        id[14] == '4',
        seq!['8', '9', 'a', 'b'].contains(id[19]),
{
    assert(if i == 8 || i == 13 || i == 18 || i == 23 {
        id[i] == '-'
    } else {
        is_hex_digit(id[i])
    });
    let variants = seq!['8', '9', 'a', 'b'];
    assert(variants[0] == '8' && variants[1] == '9' && variants[2] == 'a' && variants[3] == 'b');
}

/// A path that ends in a name inside a directory is portable even where a drive stands in front, and
/// whatever colons are in the name.
pub proof fn nested_paths_are_portable(directory: Seq<char>, name: Seq<char>)
    requires
        name.len() > 0,
        !name.contains('/'),
        name != "."@,
        !directory.contains('\\'),
        !name.contains('\\'),
        directory.len() == 0 || directory[0] != '/' || (directory.len() >= 2 && directory[1] != '/'),
    ensures
        portable(directory.push('/') + name),
{
    let path = directory.push('/') + name;
    lemma_after_last_slash(directory, name);
    assert(path[directory.len() as int] == '/');
    assert(trimmed(path) == path);
    assert(name.contains(name[0]));
    assert forall|i: int| 0 <= i < path.len() implies #[trigger] path[i] != '\\' by {
        if i < directory.len() {
            assert(directory.contains(directory[i]));
        } else if i > directory.len() {
            assert(name.contains(name[i - directory.len() - 1]));
        }
    }
}

} // verus!
