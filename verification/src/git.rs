//! What is said of the files that a repository reports as changed.

use crate::json::{items_view, Fields, Json, JsonView};
use crate::workspace::optional_view;
use vstd::prelude::*;

verus! {

broadcast use vstd::string::group_string_axioms;

/// The character that stands for `c` in a path with forward slashes alone.
pub open spec fn forward_slash(c: char) -> char {
    if c == '\\' {
        '/'
    } else {
        c
    }
}

/// A path with each backslash turned into a forward slash.
pub open spec fn normalized(path: Seq<char>) -> Seq<char> {
    path.map_values(|c: char| forward_slash(c))
}

/// The path with each backslash turned into a forward slash.
pub fn normalize_git_path(path: &str) -> (result: String)
    ensures
        result@ == normalized(path@),
{
    let mut result = String::new();
    for c in it: path.chars()
        invariant
            it.seq() == path@,
            result@ == normalized(path@.take(it.index() as int)),
    {
        result.push(if c == '\\' { '/' } else { c });
    }
    result
}

/// Which entries git is asked for when it reports the status of a repository.
#[derive(Debug, Clone, Copy, PartialEq, Eq)]
pub struct StatusRequest {
    pub include_untracked: bool,
    pub recurse_untracked_dirs: bool,
    pub renames_head_to_index: bool,
    pub renames_index_to_workdir: bool,
    pub include_ignored: bool,
}

/// New files are reported, those in new directories too, and files that were renamed as such. Files
/// that are ignored are not.
pub fn status_request() -> (request: StatusRequest)
    ensures
        (request == StatusRequest {
            include_untracked: true,
            recurse_untracked_dirs: true,
            renames_head_to_index: true,
            renames_index_to_workdir: true,
            include_ignored: false,
        }),
{
    StatusRequest {
        include_untracked: true,
        recurse_untracked_dirs: true,
        renames_head_to_index: true,
        renames_index_to_workdir: true,
        include_ignored: false,
    }
}

/// What git says of one file: how the index differs from `HEAD`, and the working directory from
/// the index.
#[derive(Debug, Clone, Copy, PartialEq, Eq)]
pub struct StatusFlags {
    pub index_new: bool,
    pub index_modified: bool,
    pub index_deleted: bool,
    pub index_renamed: bool,
    pub index_typechange: bool,
    pub wt_new: bool,
    pub wt_modified: bool,
    pub wt_deleted: bool,
    pub wt_renamed: bool,
    pub wt_typechange: bool,
}

/// The flags that the bits of a git status stand for, one bit each. Other bits say nothing here.
pub open spec fn flags_of(bits: u32) -> StatusFlags {
    StatusFlags {
        index_new: bits & 0x1 == 0x1,
        index_modified: bits & 0x2 == 0x2,
        index_deleted: bits & 0x4 == 0x4,
        index_renamed: bits & 0x8 == 0x8,
        index_typechange: bits & 0x10 == 0x10,
        wt_new: bits & 0x80 == 0x80,
        wt_modified: bits & 0x100 == 0x100,
        wt_deleted: bits & 0x200 == 0x200,
        wt_renamed: bits & 0x800 == 0x800,
        wt_typechange: bits & 0x400 == 0x400,
    }
}

/// `git2::Status::contains`, asked of the status with these bits once for each flag: whether the
/// bit of the flag is set.
#[verifier::external_body]
fn status_flags(bits: u32) -> (flags: StatusFlags)
    ensures
        flags == flags_of(bits),
{
    let status = git2::Status::from_bits_truncate(bits);
    StatusFlags {
        index_new: status.contains(git2::Status::INDEX_NEW),
        index_modified: status.contains(git2::Status::INDEX_MODIFIED),
        index_deleted: status.contains(git2::Status::INDEX_DELETED),
        index_renamed: status.contains(git2::Status::INDEX_RENAMED),
        index_typechange: status.contains(git2::Status::INDEX_TYPECHANGE),
        wt_new: status.contains(git2::Status::WT_NEW),
        wt_modified: status.contains(git2::Status::WT_MODIFIED),
        wt_deleted: status.contains(git2::Status::WT_DELETED),
        wt_renamed: status.contains(git2::Status::WT_RENAMED),
        wt_typechange: status.contains(git2::Status::WT_TYPECHANGE),
    }
}

impl StatusFlags {
    /// The code that a file is listed under. The first change that applies counts, in this order,
    /// whether it is in the index or in the working directory.
    pub open spec fn spec_code(self) -> Seq<char> {
        if self.wt_new || self.index_new {
            "A"@
        } else if self.wt_modified || self.index_modified {
            "M"@
        } else if self.wt_deleted || self.index_deleted {
            "D"@
        } else if self.wt_renamed || self.index_renamed {
            "R"@
        } else if self.wt_typechange || self.index_typechange {
            "T"@
        } else {
            "--"@
        }
    }

    /// The index differs from `HEAD`.
    pub open spec fn in_index(self) -> bool {
        self.index_new || self.index_modified || self.index_deleted || self.index_renamed
            || self.index_typechange
    }

    /// The working directory differs from the index.
    pub open spec fn in_workdir(self) -> bool {
        self.wt_new || self.wt_modified || self.wt_deleted || self.wt_renamed || self.wt_typechange
    }

    /// The code that a file is listed under.
    pub fn code(&self) -> (code: &'static str)
        ensures
            code@ == self.spec_code(),
    {
        if self.wt_new || self.index_new {
            "A"
        } else if self.wt_modified || self.index_modified {
            "M"
        } else if self.wt_deleted || self.index_deleted {
            "D"
        } else if self.wt_renamed || self.index_renamed {
            "R"
        } else if self.wt_typechange || self.index_typechange {
            "T"
        } else {
            "--"
        }
    }

    /// Whether the changes of the file in the index are to be counted.
    pub fn include_index(&self) -> (yes: bool)
        ensures
            yes == self.in_index(),
    {
        self.index_new || self.index_modified || self.index_deleted || self.index_renamed
            || self.index_typechange
    }

    /// Whether the changes of the file in the working directory are to be counted.
    pub fn include_workdir(&self) -> (yes: bool)
        ensures
            yes == self.in_workdir(),
    {
        self.wt_new || self.wt_modified || self.wt_deleted || self.wt_renamed || self.wt_typechange
    }
}

/// No backslash is left in a path once it is normalized, and nothing but backslashes is changed.
pub proof fn normalized_has_no_backslash(path: Seq<char>)
    ensures
        !normalized(path).contains('\\'),
        normalized(path).len() == path.len(),
        forall|i: int|
            0 <= i < path.len() && path[i] != '\\' ==> #[trigger] normalized(path)[i] == path[i],
{
}

/// Normalizing a path again changes nothing.
pub proof fn normalizing_twice_is_once(path: Seq<char>)
    ensures
        normalized(normalized(path)) == normalized(path),
{
    assert(normalized(normalized(path)) =~= normalized(path));
}

/// A file is listed without a code exactly where none of its changes are counted.
pub proof fn no_code_without_changes(flags: StatusFlags)
    ensures
        flags.spec_code() == "--"@ <==> !flags.in_index() && !flags.in_workdir(),
{
    reveal_strlit("A");
    reveal_strlit("M");
    reveal_strlit("D");
    reveal_strlit("R");
    reveal_strlit("T");
    reveal_strlit("--");
    assert("--"@.len() == 2);
    assert(flags.in_index() || flags.in_workdir() ==> flags.spec_code().len() == 1);
}

/// What a comparison is between.
#[derive(Debug, Clone, Copy, PartialEq, Eq)]
pub enum DiffScope {
    HeadToIndex,
    IndexToWorkdir,
}

/// A comparison that is to be made.
#[derive(Debug)]
pub struct DiffRequest {
    pub scope: DiffScope,
    pub pathspec: String,
    pub include_untracked: bool,
    pub recurse_untracked_dirs: bool,
    pub show_untracked_content: bool,
}

pub struct DiffRequestView {
    pub scope: DiffScope,
    pub pathspec: Seq<char>,
    pub include_untracked: bool,
    pub recurse_untracked_dirs: bool,
    pub show_untracked_content: bool,
}

impl View for DiffRequest {
    type V = DiffRequestView;

    open spec fn view(&self) -> DiffRequestView {
        DiffRequestView {
            scope: self.scope,
            pathspec: self.pathspec@,
            include_untracked: self.include_untracked,
            recurse_untracked_dirs: self.recurse_untracked_dirs,
            show_untracked_content: self.show_untracked_content,
        }
    }
}

/// The comparisons that tell how much of a file has changed: of the index with `HEAD` and of the
/// working directory with the index, as far as the file differs there. Only in the working
/// directory are new files looked into, and new directories searched.
pub open spec fn diffs_of(path: Seq<char>, flags: StatusFlags) -> Seq<DiffRequestView> {
    let index = DiffRequestView {
        scope: DiffScope::HeadToIndex,
        pathspec: path,
        include_untracked: true,
        recurse_untracked_dirs: false,
        show_untracked_content: false,
    };
    let workdir = DiffRequestView {
        scope: DiffScope::IndexToWorkdir,
        pathspec: path,
        include_untracked: true,
        recurse_untracked_dirs: true,
        show_untracked_content: true,
    };
    match (flags.in_index(), flags.in_workdir()) {
        (true, true) => seq![index, workdir],
        (true, false) => seq![index],
        (false, true) => seq![workdir],
        (false, false) => seq![],
    }
}

pub open spec fn diff_views(diffs: Seq<DiffRequest>) -> Seq<DiffRequestView> {
    diffs.map_values(|diff: DiffRequest| diff@)
}

/// A file that is to be listed.
#[derive(Debug)]
pub struct ChangedFile {
    pub path: String,
    pub flags: StatusFlags,
}

/// The file that an entry of a repository's status is about. An entry whose path is empty, or is
/// not text, is passed over.
pub fn changed_file(path: Option<&str>, bits: u32) -> (file: Option<ChangedFile>)
    ensures
        match path {
            Some(p) => if p@.len() == 0 {
                file is None
            } else {
                file matches Some(f) && f.path@ == p@ && f.flags == flags_of(bits)
            },
            None => file is None,
        },
{
    match path {
        Some(path) => if path.is_empty() {
            None
        } else {
            Some(ChangedFile { path: path.to_owned(), flags: status_flags(bits) })
        },
        None => None,
    }
}

impl ChangedFile {
    /// The comparisons to make, in this order.
    pub fn diffs(&self) -> (diffs: Vec<DiffRequest>)
        ensures
            diff_views(diffs@) == diffs_of(self.path@, self.flags),
            forall|i: int|
                0 <= i < diffs.len() ==> (#[trigger] diffs@[i]).pathspec@ == self.path@
                    && diffs@[i].include_untracked && (diffs@[i].recurse_untracked_dirs
                    <==> diffs@[i].scope is IndexToWorkdir) && (diffs@[i].show_untracked_content
                    <==> diffs@[i].scope is IndexToWorkdir),
    {
        let mut diffs: Vec<DiffRequest> = Vec::new();
        if self.flags.include_index() {
            diffs.push(
                DiffRequest {
                    scope: DiffScope::HeadToIndex,
                    pathspec: self.path.clone(),
                    include_untracked: true,
                    recurse_untracked_dirs: false,
                    show_untracked_content: false,
                },
            );
        }
        if self.flags.include_workdir() {
            diffs.push(
                DiffRequest {
                    scope: DiffScope::IndexToWorkdir,
                    pathspec: self.path.clone(),
                    include_untracked: true,
                    recurse_untracked_dirs: true,
                    show_untracked_content: true,
                },
            );
        }
        assert(diff_views(diffs@) =~= diffs_of(self.path@, self.flags));
        diffs
    }
}

/// How many lines a comparison found added and removed.
#[derive(Debug, Clone, Copy, PartialEq, Eq)]
pub struct DiffStats {
    pub insertions: usize,
    pub deletions: usize,
}

/// The lines added, over all comparisons. Each count is taken as a signed number.
pub open spec fn additions_in(stats: Seq<DiffStats>) -> int
    decreases stats.len(),
{
    if stats.len() == 0 {
        0
    } else {
        additions_in(stats.drop_last()) + stats.last().insertions as i64
    }
}

/// The lines removed, over all comparisons. Each count is taken as a signed number.
pub open spec fn deletions_in(stats: Seq<DiffStats>) -> int
    decreases stats.len(),
{
    if stats.len() == 0 {
        0
    } else {
        deletions_in(stats.drop_last()) + stats.last().deletions as i64
    }
}

pub open spec fn in_i64(n: int) -> bool {
    i64::MIN <= n <= i64::MAX
}

/// The counts add up without overflow.
pub open spec fn stats_fit(stats: Seq<DiffStats>) -> bool {
    forall|n: int|
        0 <= n <= stats.len() ==> in_i64(additions_in(#[trigger] stats.take(n))) && in_i64(
            deletions_in(stats.take(n)),
        )
}

/// Whether the counts add up without overflow.
pub fn counts_fit(stats: &Vec<DiffStats>) -> (fit: bool)
    ensures
        fit == stats_fit(stats@),
{
    let mut additions: i64 = 0;
    let mut deletions: i64 = 0;
    let mut i: usize = 0;
    while i < stats.len()
        invariant
            i <= stats.len(),
            additions == additions_in(stats@.take(i as int)),
            deletions == deletions_in(stats@.take(i as int)),
            forall|n: int|
                0 <= n <= i ==> in_i64(additions_in(#[trigger] stats@.take(n))) && in_i64(
                    deletions_in(stats@.take(n)),
                ),
        decreases stats.len() - i,
    {
        assert(stats@.take(i + 1).drop_last() =~= stats@.take(i as int));
        let more_additions = additions.checked_add(stats[i].insertions as i64);
        let more_deletions = deletions.checked_add(stats[i].deletions as i64);
        match (more_additions, more_deletions) {
            (Some(a), Some(d)) => {
                additions = a;
                deletions = d;
            },
            _ => {
                assert(!in_i64(additions_in(stats@.take(i + 1))) || !in_i64(
                    deletions_in(stats@.take(i + 1)),
                ));
                return false;
            },
        }
        i = i + 1;
    }
    true
}

/// How many lines of a file were added and removed, from what its comparisons found.
pub fn diff_stats_for_path(stats: &Vec<DiffStats>) -> (sums: (i64, i64))
    requires
        stats_fit(stats@),
    ensures
        sums.0 == additions_in(stats@),
        sums.1 == deletions_in(stats@),
{
    let mut additions: i64 = 0;
    let mut deletions: i64 = 0;
    let mut i: usize = 0;
    while i < stats.len()
        invariant
            i <= stats.len(),
            stats_fit(stats@),
            additions == additions_in(stats@.take(i as int)),
            deletions == deletions_in(stats@.take(i as int)),
        decreases stats.len() - i,
    {
        proof {
            assert(stats@.take(i + 1).drop_last() =~= stats@.take(i as int));
            assert(in_i64(additions_in(stats@.take(i + 1))));
        }
        additions = additions + stats[i].insertions as i64;
        deletions = deletions + stats[i].deletions as i64;
        i = i + 1;
    }
    assert(stats@.take(stats.len() as int) =~= stats@);
    (additions, deletions)
}

/// What came of a comparison: what it found, or why it failed.
pub open spec fn outcome_of(outcome: Result<DiffStats, String>) -> Result<DiffStats, Seq<char>> {
    match outcome {
        Ok(stats) => Ok(stats),
        Err(error) => Err(error@),
    }
}

pub open spec fn outcomes_view(outcomes: Seq<Result<DiffStats, String>>) -> Seq<
    Result<DiffStats, Seq<char>>,
> {
    outcomes.map_values(|outcome: Result<DiffStats, String>| outcome_of(outcome))
}

/// None of the comparisons failed.
pub open spec fn none_failed(outcomes: Seq<Result<DiffStats, Seq<char>>>) -> bool {
    forall|i: int| 0 <= i < outcomes.len() ==> (#[trigger] outcomes[i]) is Ok
}

/// The comparison at `i` failed, and none before it.
pub open spec fn failed_first(outcomes: Seq<Result<DiffStats, Seq<char>>>, i: int) -> bool {
    &&& 0 <= i < outcomes.len()
    &&& outcomes[i] is Err
    &&& none_failed(outcomes.take(i))
}

/// What the comparisons of a file come to: what all of them found, in order, or the reason of the
/// first that failed.
pub open spec fn come_to(
    outcomes: Seq<Result<DiffStats, Seq<char>>>,
    found: Result<Seq<DiffStats>, Seq<char>>,
) -> bool {
    match found {
        Ok(stats) => {
            &&& stats.len() == outcomes.len()
            &&& forall|i: int|
                0 <= i < outcomes.len() ==> (#[trigger] outcomes[i]) == Ok::<DiffStats, Seq<char>>(
                    stats[i],
                )
        },
        Err(error) => exists|i: int| #[trigger]
            failed_first(outcomes, i) && outcomes[i]->Err_0 == error,
    }
}

/// The comparison to make next, after those with these outcomes: the next in order, as long as
/// there is one and none has failed.
pub open spec fn next_diff(
    path: Seq<char>,
    flags: StatusFlags,
    outcomes: Seq<Result<DiffStats, Seq<char>>>,
) -> Option<DiffRequestView> {
    if none_failed(outcomes) && outcomes.len() < diffs_of(path, flags).len() {
        Some(diffs_of(path, flags)[outcomes.len() as int])
    } else {
        None
    }
}

impl ChangedFile {
    /// The comparison to make next, after those with these outcomes.
    pub fn next_comparison(&self, outcomes: &Vec<Result<DiffStats, String>>) -> (next: Option<
        DiffRequest,
    >)
        ensures
            match next {
                Some(request) => next_diff(self.path@, self.flags, outcomes_view(outcomes@))
                    == Some(request@),
                None => next_diff(self.path@, self.flags, outcomes_view(outcomes@)) is None,
            },
            (exists|i: int| 0 <= i < outcomes.len() && (#[trigger] outcomes@[i]) is Err)
                ==> next is None,
            (forall|i: int| 0 <= i < outcomes.len() ==> (#[trigger] outcomes@[i]) is Ok)
                && outcomes.len() < diffs_of(self.path@, self.flags).len() ==> next is Some,
    {
        let ghost views = outcomes_view(outcomes@);
        let mut i: usize = 0;
        while i < outcomes.len()
            invariant
                i <= outcomes.len(),
                views == outcomes_view(outcomes@),
                forall|j: int| 0 <= j < i ==> (#[trigger] views[j]) is Ok,
                forall|j: int| 0 <= j < i ==> (#[trigger] outcomes@[j]) is Ok,
            decreases outcomes.len() - i,
        {
            if outcomes[i].is_err() {
                assert(views[i as int] is Err);
                return None;
            }
            i = i + 1;
        }
        let mut diffs = self.diffs();
        let ghost all = diff_views(diffs@);
        assert(all.len() == diffs.len());
        if outcomes.len() < diffs.len() {
            assert(all[outcomes.len() as int] == diffs[outcomes.len() as int]@);
            Some(diffs.remove(outcomes.len()))
        } else {
            None
        }
    }
}

/// What the comparisons of a file come to: what all of them found, in order, or the reason of the
/// first that failed.
pub fn comparisons_found(outcomes: Vec<Result<DiffStats, String>>) -> (found: Result<
    Vec<DiffStats>,
    String,
>)
    ensures
        come_to(outcomes_view(outcomes@), found_view(found)),
        match found {
            Ok(stats) => stats.len() == outcomes.len() && forall|i: int|
                0 <= i < outcomes.len() ==> (#[trigger] outcomes@[i]) == Ok::<DiffStats, String>(
                    stats[i],
                ),
            Err(error) => exists|i: int|
                0 <= i < outcomes.len() && (#[trigger] outcomes@[i]) == Err::<DiffStats, String>(
                    error,
                ) && forall|j: int| 0 <= j < i ==> (#[trigger] outcomes@[j]) is Ok,
        },
{
    let ghost views = outcomes_view(outcomes@);
    let ghost all = outcomes@;
    let mut stats: Vec<DiffStats> = Vec::new();
    for outcome in it: outcomes
        invariant
            it.seq() == all,
            outcomes@ == all,
            views == outcomes_view(all),
            stats.len() == it.index(),
            forall|j: int|
                0 <= j < stats.len() ==> (#[trigger] views[j]) == Ok::<DiffStats, Seq<char>>(
                    stats[j],
                ),
            forall|j: int|
                0 <= j < stats.len() ==> (#[trigger] all[j]) == Ok::<DiffStats, String>(stats[j]),
    {
        let ghost i = it.index() as int;
        assert(outcome == all[i]);
        assert(views[i] == outcome_of(outcome));
        match outcome {
            Ok(one) => stats.push(one),
            Err(error) => {
                assert forall|j: int| 0 <= j < i implies (#[trigger] views.take(i)[j]) is Ok by {
                    assert(views[j] is Ok);
                }
                assert(failed_first(views, i));
                return Err(error);
            },
        }
    }
    Ok(stats)
}

/// What a comparison of each kind comes to, where it is made.
pub open spec fn outcome_in(
    scope: DiffScope,
    index: Result<DiffStats, Seq<char>>,
    workdir: Result<DiffStats, Seq<char>>,
) -> Result<DiffStats, Seq<char>> {
    match scope {
        DiffScope::HeadToIndex => index,
        DiffScope::IndexToWorkdir => workdir,
    }
}

/// What a file comes to once no comparison is left to make. A failure in the index decides before
/// one in the working directory, and a place where the file does not differ decides nothing. Without
/// a failure, the lines of the file are those of the places where it differs.
pub proof fn first_failure_decides(
    path: Seq<char>,
    flags: StatusFlags,
    outcomes: Seq<Result<DiffStats, Seq<char>>>,
    index: Result<DiffStats, Seq<char>>,
    workdir: Result<DiffStats, Seq<char>>,
    found: Result<Seq<DiffStats>, Seq<char>>,
)
    requires
        outcomes.len() <= diffs_of(path, flags).len(),
        forall|k: int|
            0 <= k < outcomes.len() ==> (#[trigger] outcomes[k]) == outcome_in(
                diffs_of(path, flags)[k].scope,
                index,
                workdir,
            ),
        next_diff(path, flags, outcomes) is None,
        come_to(outcomes, found),
    ensures
        found is Err <==> (flags.in_index() && index is Err) || (flags.in_workdir()
            && workdir is Err),
        flags.in_index() && index is Err ==> found == Err::<Seq<DiffStats>, Seq<char>>(
            index->Err_0,
        ),
        !(flags.in_index() && index is Err) && flags.in_workdir() && workdir is Err ==> found
            == Err::<Seq<DiffStats>, Seq<char>>(workdir->Err_0),
        found matches Ok(stats) ==> {
            &&& stats.len() == diffs_of(path, flags).len()
            &&& additions_in(stats) == (if flags.in_index() {
                index->Ok_0.insertions as i64 as int
            } else {
                0
            }) + (if flags.in_workdir() {
                workdir->Ok_0.insertions as i64 as int
            } else {
                0
            })
            &&& deletions_in(stats) == (if flags.in_index() {
                index->Ok_0.deletions as i64 as int
            } else {
                0
            }) + (if flags.in_workdir() {
                workdir->Ok_0.deletions as i64 as int
            } else {
                0
            })
        },
{
    let diffs = diffs_of(path, flags);
    match found {
        Ok(stats) => {
            assert(none_failed(outcomes));
            assert(outcomes.len() == diffs.len());
            reveal_with_fuel(additions_in, 3);
            reveal_with_fuel(deletions_in, 3);
            if diffs.len() > 0 {
                assert(outcomes[0] == Ok::<DiffStats, Seq<char>>(stats[0]));
            }
            if diffs.len() > 1 {
                assert(outcomes[1] == Ok::<DiffStats, Seq<char>>(stats[1]));
            }
        },
        Err(error) => {
            let i = choose|i: int| #[trigger]
                failed_first(outcomes, i) && outcomes[i]->Err_0 == error;
            assert(outcomes[i] == outcome_in(diffs[i].scope, index, workdir));
            if i > 0 {
                assert(outcomes.take(i)[0] is Ok);
                assert(outcomes[0] == outcome_in(diffs[0].scope, index, workdir));
            }
        },
    }
}

/// What is listed of a changed file.
#[derive(Debug)]
pub struct GitFileStatus {
    pub path: String,
    pub status: String,
    pub additions: i64,
    pub deletions: i64,
}

pub struct FileStatusView {
    pub path: Seq<char>,
    pub status: Seq<char>,
    pub additions: int,
    pub deletions: int,
}

impl View for GitFileStatus {
    type V = FileStatusView;

    open spec fn view(&self) -> FileStatusView {
        FileStatusView {
            path: self.path@,
            status: self.status@,
            additions: self.additions as int,
            deletions: self.deletions as int,
        }
    }
}

impl FileStatusView {
    pub open spec fn json(self) -> JsonView {
        JsonView::Object(
            map![
                "path"@ => JsonView::Text(self.path),
                "status"@ => JsonView::Text(self.status),
                "additions"@ => JsonView::integer(self.additions),
                "deletions"@ => JsonView::integer(self.deletions),
            ],
        )
    }
}

pub open spec fn file_views(files: Seq<GitFileStatus>) -> Seq<FileStatusView> {
    files.map_values(|file: GitFileStatus| file@)
}

/// The lines added in all files.
pub open spec fn sum_additions(files: Seq<FileStatusView>) -> int
    decreases files.len(),
{
    if files.len() == 0 {
        0
    } else {
        sum_additions(files.drop_last()) + files.last().additions
    }
}

/// The lines removed in all files.
pub open spec fn sum_deletions(files: Seq<FileStatusView>) -> int
    decreases files.len(),
{
    if files.len() == 0 {
        0
    } else {
        sum_deletions(files.drop_last()) + files.last().deletions
    }
}

/// What is reported of a repository: its branch, the files that have changed, and how many lines
/// were added and removed in all.
pub struct GitStatus {
    branch_name: String,
    files: Vec<GitFileStatus>,
    total_additions: i64,
    total_deletions: i64,
}

pub struct GitStatusView {
    pub branch_name: Seq<char>,
    pub files: Seq<FileStatusView>,
    pub total_additions: int,
    pub total_deletions: int,
}

impl View for GitStatus {
    type V = GitStatusView;

    closed spec fn view(&self) -> GitStatusView {
        GitStatusView {
            branch_name: self.branch_name@,
            files: file_views(self.files@),
            total_additions: self.total_additions as int,
            total_deletions: self.total_deletions as int,
        }
    }
}

/// The name that the branch is shown under.
pub open spec fn shown_branch(head: Option<Seq<char>>) -> Seq<char> {
    match head {
        Some(name) => name,
        None => "unknown"@,
    }
}

impl GitStatusView {
    /// The totals are those of the files that are listed.
    pub open spec fn wf(self) -> bool {
        &&& self.total_additions == sum_additions(self.files)
        &&& self.total_deletions == sum_deletions(self.files)
    }

    /// The report with one file more.
    pub open spec fn with_file(self, file: FileStatusView) -> GitStatusView {
        GitStatusView {
            branch_name: self.branch_name,
            files: self.files.push(file),
            total_additions: self.total_additions + file.additions,
            total_deletions: self.total_deletions + file.deletions,
        }
    }

    pub open spec fn json(self) -> JsonView {
        JsonView::Object(
            map![
                "branchName"@ => JsonView::Text(self.branch_name),
                "files"@ => JsonView::Array(
                    self.files.map_values(|file: FileStatusView| file.json()),
                ),
                "totalAdditions"@ => JsonView::integer(self.total_additions),
                "totalDeletions"@ => JsonView::integer(self.total_deletions),
            ],
        )
    }

    /// Listing a file keeps the totals right.
    pub proof fn totals_stay_sums(self, file: FileStatusView)
        requires
            self.wf(),
        ensures
            self.with_file(file).wf(),
    {
        assert(self.files.push(file).drop_last() =~= self.files);
    }
}

/// What is listed of a file.
pub open spec fn listed(
    path: Seq<char>,
    flags: StatusFlags,
    additions: int,
    deletions: int,
) -> FileStatusView {
    FileStatusView { path: normalized(path), status: flags.spec_code(), additions, deletions }
}

/// A file whose comparisons have been made: what each of them found, or why one failed.
pub struct ComparedView {
    pub path: Seq<char>,
    pub flags: StatusFlags,
    pub found: Result<Seq<DiffStats>, Seq<char>>,
}

pub open spec fn found_view(found: Result<Vec<DiffStats>, String>) -> Result<
    Seq<DiffStats>,
    Seq<char>,
> {
    match found {
        Ok(stats) => Ok(stats@),
        Err(error) => Err(error@),
    }
}

pub open spec fn outcome_view(outcome: Result<GitStatus, String>) -> Result<
    GitStatusView,
    Seq<char>,
> {
    match outcome {
        Ok(status) => Ok(status@),
        Err(error) => Err(error@),
    }
}

impl ComparedView {
    /// What is listed of the file, with what these comparisons found.
    pub open spec fn entry(self, stats: Seq<DiffStats>) -> FileStatusView {
        listed(self.path, self.flags, additions_in(stats), deletions_in(stats))
    }
}

impl GitStatusView {
    /// There is one result for each comparison of the file, and they can be counted without
    /// overflow.
    pub open spec fn has_room_for(
        self,
        path: Seq<char>,
        flags: StatusFlags,
        stats: Seq<DiffStats>,
    ) -> bool {
        &&& stats.len() == diffs_of(path, flags).len()
        &&& stats_fit(stats)
        &&& in_i64(self.total_additions + additions_in(stats))
        &&& in_i64(self.total_deletions + deletions_in(stats))
    }

    /// The report after the comparisons of one more file. Where one of them failed, there is no
    /// report but the reason.
    pub open spec fn after_comparing(self, file: ComparedView) -> Result<
        GitStatusView,
        Seq<char>,
    > {
        match file.found {
            Ok(stats) => Ok(self.with_file(file.entry(stats))),
            Err(error) => Err(error),
        }
    }

    /// The report after the comparisons of these files, one file after the other.
    pub open spec fn reported(self, files: Seq<ComparedView>) -> Result<GitStatusView, Seq<char>>
        decreases files.len(),
    {
        if files.len() == 0 {
            Ok(self)
        } else {
            match self.reported(files.drop_last()) {
                Ok(report) => report.after_comparing(files.last()),
                Err(error) => Err(error),
            }
        }
    }

    /// Where no comparison fails, each file is listed, in order, with the counts of its own
    /// comparisons, and the totals stay right.
    pub proof fn report_lists_each_file(self, files: Seq<ComparedView>)
        requires
            self.wf(),
            forall|i: int| 0 <= i < files.len() ==> (#[trigger] files[i]).found is Ok,
        ensures
            ({
                let entries = files.map_values(|file: ComparedView| file.entry(file.found->Ok_0));
                &&& self.reported(files) matches Ok(report)
                &&& report.branch_name == self.branch_name
                &&& report.files == self.files + entries
                &&& report.wf()
            }),
        decreases files.len(),
    {
        let entries = files.map_values(|file: ComparedView| file.entry(file.found->Ok_0));
        if files.len() == 0 {
            assert(self.files + entries =~= self.files);
        } else {
            let rest = files.drop_last();
            let last = files.last();
            assert forall|i: int| 0 <= i < rest.len() implies (#[trigger] rest[i]).found is Ok by {
                assert(files[i].found is Ok);
            }
            self.report_lists_each_file(rest);
            assert(files[files.len() - 1].found is Ok);
            let before = self.reported(rest)->Ok_0;
            let entry = last.entry(last.found->Ok_0);
            before.totals_stay_sums(entry);
            let earlier = rest.map_values(|file: ComparedView| file.entry(file.found->Ok_0));
            assert(entries =~= earlier.push(entry));
            assert(self.files + entries =~= (self.files + earlier).push(entry));
        }
    }

    /// One comparison that fails ends the whole report: the first failure is all that is reported,
    /// whatever comes after.
    pub proof fn failure_ends_report(self, files: Seq<ComparedView>, i: int)
        requires
            0 <= i < files.len(),
            files[i].found is Err,
            forall|j: int| 0 <= j < i ==> (#[trigger] files[j]).found is Ok,
        ensures
            self.reported(files) == Err::<GitStatusView, Seq<char>>(files[i].found->Err_0),
        decreases files.len(),
    {
        let rest = files.drop_last();
        if i < files.len() - 1 {
            assert forall|j: int| 0 <= j < i implies (#[trigger] rest[j]).found is Ok by {
                assert(files[j].found is Ok);
            }
            self.failure_ends_report(rest, i);
        } else {
            self.lemma_reported_without_failure(rest);
        }
    }

    proof fn lemma_reported_without_failure(self, files: Seq<ComparedView>)
        requires
            forall|i: int| 0 <= i < files.len() ==> (#[trigger] files[i]).found is Ok,
        ensures
            self.reported(files) is Ok,
        decreases files.len(),
    {
        if files.len() > 0 {
            let rest = files.drop_last();
            assert forall|i: int| 0 <= i < rest.len() implies (#[trigger] rest[i]).found is Ok by {
                assert(files[i].found is Ok);
            }
            self.lemma_reported_without_failure(rest);
            assert(files[files.len() - 1].found is Ok);
        }
    }
}

impl GitStatus {
    /// The report on a repository whose `HEAD` has this name, before any file is listed.
    pub fn new(head: Option<String>) -> (status: GitStatus)
        ensures
            (status@ == GitStatusView {
                branch_name: shown_branch(optional_view(head)),
                files: seq![],
                total_additions: 0,
                total_deletions: 0,
            }),
            status@.wf(),
    {
        let branch_name = match head {
            Some(name) => name,
            None => "unknown".to_owned(),
        };
        let status = GitStatus {
            branch_name,
            files: Vec::new(),
            total_additions: 0,
            total_deletions: 0,
        };
        assert(status@.files =~= seq![]);
        status
    }

    /// Whether these lines can be counted without overflow.
    pub fn has_room(&self, additions: i64, deletions: i64) -> (room: bool)
        ensures
            room == (in_i64(self@.total_additions + additions) && in_i64(
                self@.total_deletions + deletions,
            )),
    {
        self.total_additions.checked_add(additions).is_some() && self.total_deletions.checked_add(
            deletions,
        ).is_some()
    }

    /// Lists a file, with the lines added to it and removed from it.
    pub fn record(&mut self, file: &ChangedFile, additions: i64, deletions: i64)
        requires
            in_i64(old(self)@.total_additions + additions),
            in_i64(old(self)@.total_deletions + deletions),
        ensures
            final(self)@ == old(self)@.with_file(
                listed(file.path@, file.flags, additions as int, deletions as int),
            ),
            old(self)@.wf() ==> final(self)@.wf(),
    {
        let ghost before = self@;
        self.total_additions = self.total_additions + additions;
        self.total_deletions = self.total_deletions + deletions;
        let entry = GitFileStatus {
            path: normalize_git_path(file.path.as_str()),
            status: file.flags.code().to_owned(),
            additions,
            deletions,
        };
        let ghost view = entry@;
        self.files.push(entry);
        proof {
            assert(self@.files =~= before.files.push(view));
            if before.wf() {
                before.totals_stay_sums(view);
            }
        }
    }

    /// Whether there is one result for each comparison of the file, and they can be counted without
    /// overflow.
    pub fn has_room_for(&self, file: &ChangedFile, stats: &Vec<DiffStats>) -> (room: bool)
        ensures
            room == self@.has_room_for(file.path@, file.flags, stats@),
    {
        let expected = file.diffs();
        assert(diff_views(expected@).len() == expected.len());
        if stats.len() != expected.len() || !counts_fit(stats) {
            return false;
        }
        let (additions, deletions) = diff_stats_for_path(stats);
        self.has_room(additions, deletions)
    }

    /// Lists a file, with the lines that its comparisons found added and removed.
    pub fn record_stats(&mut self, file: &ChangedFile, stats: &Vec<DiffStats>)
        requires
            old(self)@.has_room_for(file.path@, file.flags, stats@),
        ensures
            final(self)@ == old(self)@.with_file(
                listed(file.path@, file.flags, additions_in(stats@), deletions_in(stats@)),
            ),
            old(self)@.wf() ==> final(self)@.wf(),
    {
        let (additions, deletions) = diff_stats_for_path(stats);
        self.record(file, additions, deletions);
    }

    /// The report once the comparisons of a file have been made, or one of them has failed. A
    /// failure ends the report.
    pub fn file_compared(self, file: &ChangedFile, found: Result<Vec<DiffStats>, String>) -> (outcome:
        Result<GitStatus, String>)
        requires
            found matches Ok(stats) ==> self@.has_room_for(file.path@, file.flags, stats@),
        ensures
            (outcome_view(outcome) == self@.after_comparing(
                (ComparedView { path: file.path@, flags: file.flags, found: found_view(found) }),
            )),
            outcome matches Ok(status) ==> self@.wf() ==> status@.wf(),
            match found {
                Ok(stats) => outcome matches Ok(status) && status@ == self@.with_file(
                    listed(file.path@, file.flags, additions_in(stats@), deletions_in(stats@)),
                ),
                Err(error) => outcome matches Err(e) && e == error,
            },
    {
        match found {
            Ok(stats) => {
                let mut status = self;
                status.record_stats(file, &stats);
                Ok(status)
            },
            Err(error) => Err(error),
        }
    }

    /// The report as it is handed to the window.
    pub fn json(&self) -> (json: Json)
        ensures
            json@ == self@.json(),
    {
        let mut files: Vec<Json> = Vec::new();
        let ghost expected = self@.files.map_values(|file: FileStatusView| file.json());
        let mut i: usize = 0;
        while i < self.files.len()
            invariant
                i <= self.files.len(),
                expected == self@.files.map_values(|file: FileStatusView| file.json()),
                files.len() == i,
                items_view(files@) == expected.take(i as int),
            decreases self.files.len() - i,
        {
            let file = &self.files[i];
            let item = Fields::new().with("path", Json::text(file.path.as_str())).with(
                "status",
                Json::text(file.status.as_str()),
            ).with("additions", Json::signed(file.additions)).with(
                "deletions",
                Json::signed(file.deletions),
            ).object();
            let ghost before = files@;
            files.push(item);
            proof {
                assert(files@.drop_last() =~= before);
                assert(expected[i as int] == file@.json());
                assert(expected.take(i + 1) =~= expected.take(i as int).push(file@.json()));
            }
            i = i + 1;
        }
        assert(expected.take(self.files.len() as int) =~= expected);
        Fields::new().with("branchName", Json::text(self.branch_name.as_str())).with(
            "files",
            Json::Array(files),
        ).with("totalAdditions", Json::signed(self.total_additions)).with(
            "totalDeletions",
            Json::signed(self.total_deletions),
        ).object()
    }
}

/// One of the bits that a flag stands for.
spec fn is_flag_bit(bit: u32) -> bool {
    bit == 0x1 || bit == 0x2 || bit == 0x4 || bit == 0x8 || bit == 0x10 || bit == 0x80 || bit
        == 0x100 || bit == 0x200 || bit == 0x400 || bit == 0x800
}

proof fn lemma_set_and_clear(bits: u32, own: u32)
    by (bit_vector)
    requires
        is_flag_bit(own),
    ensures
        forall|bit: u32|
            is_flag_bit(bit) ==> #[trigger] ((bits | own) & bit) == (if bit == own {
                bit
            } else {
                bits & bit
            }),
        forall|bit: u32|
            is_flag_bit(bit) ==> #[trigger] ((bits & !own) & bit) == (if bit == own {
                0
            } else {
                bits & bit
            }),
{
}

/// Each flag follows its own bit, whatever the other bits are, and no other flag does.
pub proof fn each_flag_has_its_bit(bits: u32)
    ensures
        (flags_of(bits | 0x1) == StatusFlags { index_new: true, ..flags_of(bits) }),
        (flags_of(bits & !0x1u32) == StatusFlags { index_new: false, ..flags_of(bits) }),
        (flags_of(bits | 0x2) == StatusFlags { index_modified: true, ..flags_of(bits) }),
        (flags_of(bits & !0x2u32) == StatusFlags { index_modified: false, ..flags_of(bits) }),
        (flags_of(bits | 0x4) == StatusFlags { index_deleted: true, ..flags_of(bits) }),
        (flags_of(bits & !0x4u32) == StatusFlags { index_deleted: false, ..flags_of(bits) }),
        (flags_of(bits | 0x8) == StatusFlags { index_renamed: true, ..flags_of(bits) }),
        (flags_of(bits & !0x8u32) == StatusFlags { index_renamed: false, ..flags_of(bits) }),
        (flags_of(bits | 0x10) == StatusFlags { index_typechange: true, ..flags_of(bits) }),
        (flags_of(bits & !0x10u32) == StatusFlags { index_typechange: false, ..flags_of(bits) }),
        (flags_of(bits | 0x80) == StatusFlags { wt_new: true, ..flags_of(bits) }),
        (flags_of(bits & !0x80u32) == StatusFlags { wt_new: false, ..flags_of(bits) }),
        (flags_of(bits | 0x100) == StatusFlags { wt_modified: true, ..flags_of(bits) }),
        (flags_of(bits & !0x100u32) == StatusFlags { wt_modified: false, ..flags_of(bits) }),
        (flags_of(bits | 0x200) == StatusFlags { wt_deleted: true, ..flags_of(bits) }),
        (flags_of(bits & !0x200u32) == StatusFlags { wt_deleted: false, ..flags_of(bits) }),
        (flags_of(bits | 0x400) == StatusFlags { wt_typechange: true, ..flags_of(bits) }),
        (flags_of(bits & !0x400u32) == StatusFlags { wt_typechange: false, ..flags_of(bits) }),
        (flags_of(bits | 0x800) == StatusFlags { wt_renamed: true, ..flags_of(bits) }),
        (flags_of(bits & !0x800u32) == StatusFlags { wt_renamed: false, ..flags_of(bits) }),
{
    lemma_set_and_clear(bits, 0x1);
    lemma_set_and_clear(bits, 0x2);
    lemma_set_and_clear(bits, 0x4);
    lemma_set_and_clear(bits, 0x8);
    lemma_set_and_clear(bits, 0x10);
    lemma_set_and_clear(bits, 0x80);
    lemma_set_and_clear(bits, 0x100);
    lemma_set_and_clear(bits, 0x200);
    lemma_set_and_clear(bits, 0x400);
    lemma_set_and_clear(bits, 0x800);
}

/// The code of a file is that of the first change that applies, whatever other changes apply with
/// it: a new file is `A` even if it was changed since, and so on down to the file without a change.
pub proof fn first_change_gives_code(flags: StatusFlags)
    ensures
        flags.spec_code() == "A"@ <==> flags.wt_new || flags.index_new,
        flags.spec_code() == "M"@ <==> !(flags.wt_new || flags.index_new) && (flags.wt_modified
            || flags.index_modified),
        flags.spec_code() == "D"@ <==> !(flags.wt_new || flags.index_new) && !(flags.wt_modified
            || flags.index_modified) && (flags.wt_deleted || flags.index_deleted),
        flags.spec_code() == "R"@ <==> !(flags.wt_new || flags.index_new) && !(flags.wt_modified
            || flags.index_modified) && !(flags.wt_deleted || flags.index_deleted) && (
        flags.wt_renamed || flags.index_renamed),
        flags.spec_code() == "T"@ <==> !(flags.wt_new || flags.index_new) && !(flags.wt_modified
            || flags.index_modified) && !(flags.wt_deleted || flags.index_deleted) && !(
        flags.wt_renamed || flags.index_renamed) && (flags.wt_typechange
            || flags.index_typechange),
        seq!["A"@, "M"@, "D"@, "R"@, "T"@, "--"@].contains(flags.spec_code()),
{
    reveal_strlit("A");
    reveal_strlit("M");
    reveal_strlit("D");
    reveal_strlit("R");
    reveal_strlit("T");
    reveal_strlit("--");
    assert("A"@[0] == 'A');
    assert("M"@[0] == 'M');
    assert("D"@[0] == 'D');
    assert("R"@[0] == 'R');
    assert("T"@[0] == 'T');
    assert("--"@[0] == '-');
    let codes = seq!["A"@, "M"@, "D"@, "R"@, "T"@, "--"@];
    assert(codes[0] == "A"@ && codes[1] == "M"@ && codes[2] == "D"@ && codes[3] == "R"@ && codes[4]
        == "T"@ && codes[5] == "--"@);
}

/// A change in the index counts for the code as the same change in the working directory does.
pub proof fn code_asks_both_places_alike(flags: StatusFlags, other: StatusFlags)
    requires
        (flags.index_new || flags.wt_new) == (other.index_new || other.wt_new),
        (flags.index_modified || flags.wt_modified) == (other.index_modified || other.wt_modified),
        (flags.index_deleted || flags.wt_deleted) == (other.index_deleted || other.wt_deleted),
        (flags.index_renamed || flags.wt_renamed) == (other.index_renamed || other.wt_renamed),
        (flags.index_typechange || flags.wt_typechange) == (other.index_typechange
            || other.wt_typechange),
    ensures
        flags.spec_code() == other.spec_code(),
{
}

/// A file differs in a place exactly where one of the changes of that place applies, and the changes
/// of the other place have no part in it.
pub proof fn each_change_has_its_place(flags: StatusFlags)
    ensures
        !flags.in_index() <==> !flags.index_new && !flags.index_modified && !flags.index_deleted
            && !flags.index_renamed && !flags.index_typechange,
        !flags.in_workdir() <==> !flags.wt_new && !flags.wt_modified && !flags.wt_deleted
            && !flags.wt_renamed && !flags.wt_typechange,
{
}

/// Each backslash of a path becomes a slash, every other character stays, and each is where it was.
pub proof fn normalized_at_each_place(path: Seq<char>, i: int)
    requires
        0 <= i < path.len(),
    ensures
        normalized(path).len() == path.len(),
        path[i] == '\\' ==> normalized(path)[i] == '/',
        path[i] != '\\' ==> normalized(path)[i] == path[i],
{
}

/// A file is compared once in each place where it differs, the index before the working directory,
/// by its own path and with new files. New files are looked into, and new directories searched, in
/// the working directory and only there.
pub proof fn each_place_is_compared(path: Seq<char>, flags: StatusFlags)
    ensures
        ({
            let diffs = diffs_of(path, flags);
            &&& diffs.len() == (if flags.in_index() {
                1int
            } else {
                0
            }) + (if flags.in_workdir() {
                1int
            } else {
                0
            })
            &&& flags.in_index() ==> diffs[0].scope is HeadToIndex
            &&& flags.in_workdir() ==> diffs.last().scope is IndexToWorkdir
            &&& forall|i: int|
                0 <= i < diffs.len() ==> (#[trigger] diffs[i]).pathspec == path
                    && diffs[i].include_untracked
            &&& forall|i: int|
                0 <= i < diffs.len() ==> ((#[trigger] diffs[i]).recurse_untracked_dirs
                    <==> diffs[i].scope is IndexToWorkdir)
            &&& forall|i: int|
                0 <= i < diffs.len() ==> ((#[trigger] diffs[i]).show_untracked_content
                    <==> diffs[i].scope is IndexToWorkdir)
        }),
{
}

/// The lines of some comparisons and of some more add up; one comparison counts for what it found,
/// and none for nothing.
pub proof fn counts_add_up(left: Seq<DiffStats>, right: Seq<DiffStats>, one: DiffStats)
    ensures
        additions_in(Seq::<DiffStats>::empty()) == 0,
        deletions_in(Seq::<DiffStats>::empty()) == 0,
        one.insertions <= i64::MAX ==> additions_in(seq![one]) == one.insertions,
        one.deletions <= i64::MAX ==> deletions_in(seq![one]) == one.deletions,
        additions_in(left + right) == additions_in(left) + additions_in(right),
        deletions_in(left + right) == deletions_in(left) + deletions_in(right),
    decreases right.len(),
{
    reveal_with_fuel(additions_in, 2);
    reveal_with_fuel(deletions_in, 2);
    assert(seq![one].drop_last() =~= Seq::<DiffStats>::empty());
    if right.len() == 0 {
        assert(left + right =~= left);
    } else {
        assert((left + right).drop_last() =~= left + right.drop_last());
        assert((left + right).last() == right.last());
        counts_add_up(left, right.drop_last(), one);
    }
}

/// The counts can be held as signed numbers.
pub open spec fn counts_are_small(stats: Seq<DiffStats>) -> bool {
    forall|i: int|
        0 <= i < stats.len() ==> (#[trigger] stats[i]).insertions <= 0x7fff_ffff_ffff_ffff
            && stats[i].deletions <= 0x7fff_ffff_ffff_ffff
}

proof fn lemma_counts_not_negative(stats: Seq<DiffStats>)
    requires
        counts_are_small(stats),
    ensures
        additions_in(stats) >= 0,
        deletions_in(stats) >= 0,
    decreases stats.len(),
{
    if stats.len() > 0 {
        let rest = stats.drop_last();
        assert forall|i: int| 0 <= i < rest.len() implies (#[trigger] rest[i]).insertions
            <= 0x7fff_ffff_ffff_ffff && rest[i].deletions <= 0x7fff_ffff_ffff_ffff by {
            assert(rest[i] == stats[i]);
        }
        lemma_counts_not_negative(rest);
        assert(stats[stats.len() - 1] == stats.last());
    }
}

/// Counts fit exactly where they and their sums can be held.
pub proof fn small_counts_fit(stats: Seq<DiffStats>)
    requires
        counts_are_small(stats),
    ensures
        stats_fit(stats) <==> additions_in(stats) <= 0x7fff_ffff_ffff_ffff && deletions_in(stats)
            <= 0x7fff_ffff_ffff_ffff,
{
    assert(stats.take(stats.len() as int) =~= stats);
    if additions_in(stats) <= 0x7fff_ffff_ffff_ffff && deletions_in(stats)
        <= 0x7fff_ffff_ffff_ffff {
        assert forall|n: int| 0 <= n <= stats.len() implies in_i64(
            additions_in(#[trigger] stats.take(n)),
        ) && in_i64(deletions_in(stats.take(n))) by {
            let first = stats.take(n);
            let rest = stats.skip(n);
            assert(first + rest =~= stats);
            counts_add_up(first, rest, DiffStats { insertions: 0, deletions: 0 });
            assert(counts_are_small(first));
            assert forall|i: int| 0 <= i < rest.len() implies (#[trigger] rest[i]).insertions
                <= 0x7fff_ffff_ffff_ffff && rest[i].deletions <= 0x7fff_ffff_ffff_ffff by {
                assert(rest[i] == stats[i + n]);
            }
            lemma_counts_not_negative(first);
            lemma_counts_not_negative(rest);
        }
    } else {
        assert(in_i64(additions_in(stats.take(stats.len() as int))) ==> additions_in(stats)
            <= 0x7fff_ffff_ffff_ffff);
        assert(in_i64(deletions_in(stats.take(stats.len() as int))) ==> deletions_in(stats)
            <= 0x7fff_ffff_ffff_ffff);
    }
}

/// Outcomes of comparisons do not come to two different things, and they come to a failure exactly
/// where one of them is a failure.
pub proof fn outcomes_come_to_one_thing(
    outcomes: Seq<Result<DiffStats, Seq<char>>>,
    found: Result<Seq<DiffStats>, Seq<char>>,
    other: Result<Seq<DiffStats>, Seq<char>>,
)
    requires
        come_to(outcomes, found),
        come_to(outcomes, other),
    ensures
        found == other,
        found is Ok <==> forall|i: int| 0 <= i < outcomes.len() ==> (#[trigger] outcomes[i]) is Ok,
        found matches Ok(stats) ==> stats.len() == outcomes.len(),
{
    if let (Ok(a), Ok(b)) = (found, other) {
        assert forall|i: int| 0 <= i < a.len() implies a[i] == b[i] by {
            assert(outcomes[i] is Ok);
        }
        assert(a =~= b);
    }
    if let (Err(a), Err(b)) = (found, other) {
        let i = choose|i: int| #[trigger]
            failed_first(outcomes, i) && outcomes[i]->Err_0 == a;
        let j = choose|j: int| #[trigger]
            failed_first(outcomes, j) && outcomes[j]->Err_0 == b;
        if i < j {
            assert(outcomes.take(j)[i] is Ok);
        } else if j < i {
            assert(outcomes.take(i)[j] is Ok);
        }
    }
    if let Err(a) = found {
        let i = choose|i: int| #[trigger]
            failed_first(outcomes, i) && outcomes[i]->Err_0 == a;
        assert(outcomes[i] is Err);
    }
    if let Err(b) = other {
        let i = choose|i: int| #[trigger]
            failed_first(outcomes, i) && outcomes[i]->Err_0 == b;
        assert(outcomes[i] is Err);
    }
}

/// The branch is shown by the name of `HEAD`, whatever it is, and as `unknown` where there is none.
pub proof fn head_names_branch(name: Seq<char>)
    ensures
        shown_branch(Some(name)) == name,
        shown_branch(None) == "unknown"@,
{
}

/// A file is listed under its normalized path, with its code and with the lines that were counted.
pub proof fn file_is_listed_as_counted(
    path: Seq<char>,
    flags: StatusFlags,
    additions: int,
    deletions: int,
)
    ensures
        listed(path, flags, additions, deletions).path == normalized(path),
        listed(path, flags, additions, deletions).status == flags.spec_code(),
        listed(path, flags, additions, deletions).additions == additions,
        listed(path, flags, additions, deletions).deletions == deletions,
{
}

/// A file is handed to the window with its path, its code and both its counts, and nothing else.
pub proof fn file_is_handed_over_whole(file: FileStatusView)
    ensures
        file.json().get("path"@) == Some(JsonView::Text(file.path)),
        file.json().get("status"@) == Some(JsonView::Text(file.status)),
        file.json().get("additions"@) == Some(JsonView::integer(file.additions)),
        file.json().get("deletions"@) == Some(JsonView::integer(file.deletions)),
        forall|key: Seq<char>| #[trigger]
            file.json().has(key) <==> key == "path"@ || key == "status"@ || key == "additions"@
                || key == "deletions"@,
{
    reveal_strlit("path");
    reveal_strlit("status");
    reveal_strlit("additions");
    reveal_strlit("deletions");
    assert("path"@.len() == 4);
    assert("status"@.len() == 6);
    assert("additions"@.len() == 9 && "additions"@[0] == 'a');
    assert("deletions"@.len() == 9 && "deletions"@[0] == 'd');
}

impl GitStatusView {
    /// A report is handed to the window with the name of the branch, each of its files in order, and
    /// both totals, and nothing else.
    pub proof fn report_is_handed_over_whole(self)
        ensures
            self.json().get("branchName"@) == Some(JsonView::Text(self.branch_name)),
            self.json().get("files"@) matches Some(JsonView::Array(items)) && items.len()
                == self.files.len() && forall|i: int|
                0 <= i < items.len() ==> #[trigger] items[i] == self.files[i].json(),
            self.json().get("totalAdditions"@) == Some(JsonView::integer(self.total_additions)),
            self.json().get("totalDeletions"@) == Some(JsonView::integer(self.total_deletions)),
            forall|key: Seq<char>| #[trigger]
                self.json().has(key) <==> key == "branchName"@ || key == "files"@ || key
                    == "totalAdditions"@ || key == "totalDeletions"@,
    {
        reveal_strlit("branchName");
        reveal_strlit("files");
        reveal_strlit("totalAdditions");
        reveal_strlit("totalDeletions");
        assert("branchName"@.len() == 10);
        assert("files"@.len() == 5);
        assert("totalAdditions"@.len() == 14 && "totalAdditions"@[5] == 'A');
        assert("totalDeletions"@.len() == 14 && "totalDeletions"@[5] == 'D');
    }

    /// One file more stands behind those that were listed, its lines are added to the totals, and
    /// nothing else changes.
    pub proof fn file_is_added_behind(self, file: FileStatusView)
        ensures
            ({
                let after = self.with_file(file);
                &&& after.branch_name == self.branch_name
                &&& after.files.len() == self.files.len() + 1
                &&& after.files.last() == file
                &&& forall|i: int|
                    0 <= i < self.files.len() ==> #[trigger] after.files[i] == self.files[i]
                &&& after.total_additions == self.total_additions + file.additions
                &&& after.total_deletions == self.total_deletions + file.deletions
            }),
    {
    }

    /// The totals of a report are the sums of the lines of its files: none for no file, and with
    /// each file its own lines more.
    pub proof fn totals_are_those_of_files(self, file: FileStatusView)
        requires
            self.wf(),
        ensures
            self.files.len() == 0 ==> self.total_additions == 0 && self.total_deletions == 0,
            sum_additions(self.files.push(file)) == self.total_additions + file.additions,
            sum_deletions(self.files.push(file)) == self.total_deletions + file.deletions,
    {
        assert(self.files.push(file).drop_last() =~= self.files);
    }

    /// Each file of a report in which nothing failed stands in its place, with its normalized path,
    /// its code, and the lines that its own comparisons found.
    pub proof fn report_holds_own_counts(self, files: Seq<ComparedView>, i: int)
        requires
            self.wf(),
            forall|j: int| 0 <= j < files.len() ==> (#[trigger] files[j]).found is Ok,
            0 <= i < files.len(),
        ensures
            ({
                &&& self.reported(files) matches Ok(report)
                &&& report.files.len() == self.files.len() + files.len()
                &&& report.files[self.files.len() + i].path == normalized(files[i].path)
                &&& report.files[self.files.len() + i].status == files[i].flags.spec_code()
                &&& report.files[self.files.len() + i].additions == additions_in(
                    files[i].found->Ok_0,
                )
                &&& report.files[self.files.len() + i].deletions == deletions_in(
                    files[i].found->Ok_0,
                )
            }),
    {
        self.report_lists_each_file(files);
        assert(files[i].found is Ok);
    }

    /// There is room for a file exactly where there is one result for each of its comparisons and
    /// the totals with its lines can still be held.
    pub proof fn room_is_for_totals(self, path: Seq<char>, flags: StatusFlags, stats: Seq<DiffStats>)
        requires
            counts_are_small(stats),
            0 <= self.total_additions <= 0x7fff_ffff_ffff_ffff,
            0 <= self.total_deletions <= 0x7fff_ffff_ffff_ffff,
        ensures
            self.has_room_for(path, flags, stats) <==> stats.len() == diffs_of(path, flags).len()
                && self.total_additions + additions_in(stats) <= 0x7fff_ffff_ffff_ffff
                && self.total_deletions + deletions_in(stats) <= 0x7fff_ffff_ffff_ffff,
    {
        small_counts_fit(stats);
        lemma_counts_not_negative(stats);
    }
}

/// The comparisons of a file are made one after the other until one fails or none is left.
pub proof fn comparisons_go_on(
    path: Seq<char>,
    flags: StatusFlags,
    outcomes: Seq<Result<DiffStats, Seq<char>>>,
    i: int,
)
    ensures
        0 <= i < outcomes.len() && outcomes[i] is Err ==> next_diff(path, flags, outcomes) is None,
        outcomes.len() >= diffs_of(path, flags).len() ==> next_diff(path, flags, outcomes) is None,
        (forall|j: int| 0 <= j < outcomes.len() ==> (#[trigger] outcomes[j]) is Ok)
            && outcomes.len() < diffs_of(path, flags).len() ==> next_diff(path, flags, outcomes)
            == Some(diffs_of(path, flags)[outcomes.len() as int]),
{
}

/// The numbers that can be held are those of 64 bits with a sign.
pub proof fn signed_numbers_of_64_bits(n: int)
    ensures
        in_i64(n) <==> -0x8000_0000_0000_0000 <= n <= 0x7fff_ffff_ffff_ffff,
{
}

/// A comparison and a listed file are seen with all that they hold.
pub proof fn reports_are_seen_as_they_are(request: DiffRequest, file: GitFileStatus)
    ensures
        request@.scope == request.scope,
        request@.pathspec == request.pathspec@,
        request@.include_untracked == request.include_untracked,
        request@.recurse_untracked_dirs == request.recurse_untracked_dirs,
        request@.show_untracked_content == request.show_untracked_content,
        file@.path == file.path@,
        file@.status == file.status@,
        file@.additions == file.additions,
        file@.deletions == file.deletions,
{
}

} // verus!
