//! The changes between two trees: which paths stand in both, which only in
//! the original tree, and which only in the modified one.

use crate::paths::{
    filter_paths, join, joined, lemma_index_of, path_lt, path_set, paths_view, strictly_sorted,
    strings_view,
};
use crate::text::{push_str, string_of};
use vstd::prelude::*;

verus! {

/// What became of a path between the two trees.
#[derive(Clone, Copy, Debug, PartialEq, Eq, Structural)]
pub enum Kind {
    /// The path stands in both trees.
    Modified,
    /// The path stands in the original tree only.
    Removed,
    /// The path stands in the modified tree only.
    Added,
}

/// A change of one file, with the path of the file below the two trees.
#[derive(Debug)]
pub enum ChangeKind {
    Modified(String),
    Removed(String),
    Added(String),
}

/// A change as a value of the model.
pub ghost struct ChangeView {
    pub kind: Kind,
    pub path: Seq<char>,
}

impl View for ChangeKind {
    type V = ChangeView;

    open spec fn view(&self) -> ChangeView {
        match self {
            ChangeKind::Modified(p) => ChangeView { kind: Kind::Modified, path: p@ },
            ChangeKind::Removed(p) => ChangeView { kind: Kind::Removed, path: p@ },
            ChangeKind::Added(p) => ChangeView { kind: Kind::Added, path: p@ },
        }
    }
}

/// The changes of `changes` as values of the model.
pub open spec fn changes_view(changes: Seq<ChangeKind>) -> Seq<ChangeView> {
    changes.map_values(|c: ChangeKind| c@)
}

/// The place of a kind in a set of changes: modified files come first, then
/// removed ones, then added ones.
pub open spec fn kind_rank(kind: Kind) -> int {
    match kind {
        Kind::Modified => 0,
        Kind::Removed => 1,
        Kind::Added => 2,
    }
}

/// Whether `cs` is ordered as a set of changes is: by kind, and within a
/// kind by path, each path once.
pub open spec fn ordered(cs: Seq<ChangeView>) -> bool {
    forall|i: int, j: int|
        0 <= i < j < cs.len() ==> {
            ||| kind_rank(#[trigger] cs[i].kind) < kind_rank(#[trigger] cs[j].kind)
            ||| cs[i].kind == cs[j].kind && path_lt(cs[i].path, cs[j].path)
        }
}

/// Whether `cs` holds the change of kind `kind` of the path `p`.
pub open spec fn has_change(cs: Seq<ChangeView>, kind: Kind, p: Seq<char>) -> bool {
    cs.contains(ChangeView { kind, path: p })
}

/// Whether `cs` is the set of changes between the paths `a` of the original
/// tree and the paths `b` of the modified tree: a path of both is modified,
/// a path of `a` alone is removed, a path of `b` alone is added, and nothing
/// else is a change.
pub open spec fn detected(cs: Seq<ChangeView>, a: Seq<Seq<char>>, b: Seq<Seq<char>>) -> bool {
    &&& ordered(cs)
    &&& forall|p: Seq<char>| #[trigger]
        has_change(cs, Kind::Modified, p) <==> a.contains(p) && b.contains(p)
    &&& forall|p: Seq<char>| #[trigger]
        has_change(cs, Kind::Removed, p) <==> a.contains(p) && !b.contains(p)
    &&& forall|p: Seq<char>| #[trigger]
        has_change(cs, Kind::Added, p) <==> b.contains(p) && !a.contains(p)
}

/// The set of changes between two trees, with the directories of the trees.
#[derive(Debug)]
pub struct Changes {
    pub base_dir_original: String,
    pub base_dir_modified: String,
    pub changes: Vec<ChangeKind>,
}

impl ChangeKind {
    /// What became of the path.
    pub fn kind(&self) -> (k: Kind)
        ensures
            k == self@.kind,
    {
        match self {
            ChangeKind::Modified(_) => Kind::Modified,
            ChangeKind::Removed(_) => Kind::Removed,
            ChangeKind::Added(_) => Kind::Added,
        }
    }

    /// The path of the file below the two trees.
    pub fn inner(&self) -> (p: &str)
        ensures
            p@ == self@.path,
    {
        match self {
            ChangeKind::Modified(val) => val.as_str(),
            ChangeKind::Removed(val) => val.as_str(),
            ChangeKind::Added(val) => val.as_str(),
        }
    }

    /// The files that the change is about: the one in the original tree,
    /// unless the file was added, and the one in the modified tree, unless
    /// it was removed.
    pub fn actual(&self, changes: &Changes) -> (r: (Option<String>, Option<String>))
        ensures
            r.0 is Some <==> self@.kind != Kind::Added,
            r.1 is Some <==> self@.kind != Kind::Removed,
            r.0 matches Some(p) ==> p@ == joined(changes.original_dir(), self@.path),
            r.1 matches Some(p) ==> p@ == joined(changes.modified_dir(), self@.path),
    {
        match self {
            ChangeKind::Modified(path) => (
                Some(changes.original_path(path.as_str())),
                Some(changes.modified_path(path.as_str())),
            ),
            ChangeKind::Added(path) => (None, Some(changes.modified_path(path.as_str()))),
            ChangeKind::Removed(path) => (Some(changes.original_path(path.as_str())), None),
        }
    }
}

/// The change of kind `kind` of the path `path`.
fn change_of(kind: Kind, path: String) -> (c: ChangeKind)
    ensures
        c@ == (ChangeView { kind, path: path@ }),
{
    match kind {
        Kind::Modified => ChangeKind::Modified(path),
        Kind::Removed => ChangeKind::Removed(path),
        Kind::Added => ChangeKind::Added(path),
    }
}

/// The changes of kind `kind` of the paths `paths`, in their order.
pub open spec fn tagged(paths: Seq<Seq<char>>, kind: Kind) -> Seq<ChangeView> {
    paths.map_values(|p: Seq<char>| ChangeView { kind, path: p })
}

/// Appends to `out` a change of kind `kind` for each path of `group`.
fn append_group(out: &mut Vec<ChangeKind>, group: &Vec<Vec<char>>, kind: Kind)
    ensures
        changes_view(final(out)@) == changes_view(old(out)@) + tagged(paths_view(group@), kind),
{
    let ghost all = paths_view(group@);
    let mut k: usize = 0;
    while k < group.len()
        invariant
            k <= group@.len(),
            all == paths_view(group@),
            changes_view(out@) == changes_view(old(out)@) + tagged(all.take(k as int), kind),
        decreases group@.len() - k,
    {
        let ghost before = changes_view(out@);
        out.push(change_of(kind, string_of(group[k].as_slice())));
        proof {
            assert(changes_view(out@) =~= before.push(
                ChangeView { kind, path: all[k as int] },
            ));
            assert(tagged(all.take(k + 1), kind) =~= tagged(all.take(k as int), kind).push(
                ChangeView { kind, path: all[k as int] },
            ));
        }
        k += 1;
    }
    proof {
        assert(all.take(k as int) == all);
    }
}

/// Three sorted groups of paths, one of each kind, make a set of changes.
proof fn lemma_groups_detected(
    m: Seq<Seq<char>>,
    r: Seq<Seq<char>>,
    d: Seq<Seq<char>>,
    a: Seq<Seq<char>>,
    b: Seq<Seq<char>>,
)
    requires
        strictly_sorted(m),
        strictly_sorted(r),
        strictly_sorted(d),
        forall|p: Seq<char>| #[trigger] m.contains(p) <==> a.contains(p) && b.contains(p),
        forall|p: Seq<char>| #[trigger] r.contains(p) <==> a.contains(p) && !b.contains(p),
        forall|p: Seq<char>| #[trigger] d.contains(p) <==> b.contains(p) && !a.contains(p),
    ensures
        detected(
            tagged(m, Kind::Modified) + tagged(r, Kind::Removed) + tagged(d, Kind::Added),
            a,
            b,
        ),
{
    let tm = tagged(m, Kind::Modified);
    let tr = tagged(r, Kind::Removed);
    let td = tagged(d, Kind::Added);
    let cs = tm + tr + td;
    assert forall|i: int| 0 <= i < cs.len() implies #[trigger] cs[i] == if i < m.len() {
        ChangeView { kind: Kind::Modified, path: m[i] }
    } else if i < m.len() + r.len() {
        ChangeView { kind: Kind::Removed, path: r[i - m.len()] }
    } else {
        ChangeView { kind: Kind::Added, path: d[i - m.len() - r.len()] }
    } by {}
    assert(ordered(cs));
    assert forall|p: Seq<char>| #[trigger] has_change(cs, Kind::Modified, p) <==> m.contains(p) by {
        if m.contains(p) {
            let i = lemma_index_of(m, p);
            assert(cs[i] == ChangeView { kind: Kind::Modified, path: p });
        }
        if has_change(cs, Kind::Modified, p) {
            let i = lemma_index_of(cs, ChangeView { kind: Kind::Modified, path: p });
            assert(m[i] == p);
        }
    }
    assert forall|p: Seq<char>| #[trigger] has_change(cs, Kind::Removed, p) <==> r.contains(p) by {
        if r.contains(p) {
            let i = lemma_index_of(r, p);
            assert(cs[i + m.len()] == ChangeView { kind: Kind::Removed, path: p });
        }
        if has_change(cs, Kind::Removed, p) {
            let i = lemma_index_of(cs, ChangeView { kind: Kind::Removed, path: p });
            assert(r[i - m.len()] == p);
        }
    }
    assert forall|p: Seq<char>| #[trigger] has_change(cs, Kind::Added, p) <==> d.contains(p) by {
        if d.contains(p) {
            let i = lemma_index_of(d, p);
            assert(cs[i + m.len() + r.len()] == ChangeView { kind: Kind::Added, path: p });
        }
        if has_change(cs, Kind::Added, p) {
            let i = lemma_index_of(cs, ChangeView { kind: Kind::Added, path: p });
            assert(d[i - m.len() - r.len()] == p);
        }
    }
}

impl Changes {
    /// The set of changes between the tree at `original_dir`, which holds
    /// the files `original_paths`, and the tree at `modified_dir`, which
    /// holds the files `modified_paths`. The paths may come in any order,
    /// and more than once.
    pub fn detect(
        original_dir: &str,
        modified_dir: &str,
        original_paths: &Vec<String>,
        modified_paths: &Vec<String>,
    ) -> (c: Changes)
        ensures
            c.original_dir() == original_dir@,
            c.modified_dir() == modified_dir@,
            detected(
                changes_view(c.changes@),
                strings_view(original_paths@),
                strings_view(modified_paths@),
            ),
    {
        let original = path_set(original_paths);
        let modified = path_set(modified_paths);
        let both = filter_paths(&original, &modified, true);
        let removed = filter_paths(&original, &modified, false);
        let added = filter_paths(&modified, &original, false);
        let mut changes: Vec<ChangeKind> = Vec::new();
        append_group(&mut changes, &both, Kind::Modified);
        append_group(&mut changes, &removed, Kind::Removed);
        append_group(&mut changes, &added, Kind::Added);
        proof {
            lemma_groups_detected(
                paths_view(both@),
                paths_view(removed@),
                paths_view(added@),
                strings_view(original_paths@),
                strings_view(modified_paths@),
            );
            assert(changes_view(changes@) =~= tagged(paths_view(both@), Kind::Modified) + tagged(
                paths_view(removed@),
                Kind::Removed,
            ) + tagged(paths_view(added@), Kind::Added));
        }
        Changes {
            base_dir_original: original_dir.to_owned(),
            base_dir_modified: modified_dir.to_owned(),
            changes,
        }
    }

    /// The changes, from first to last.
    pub fn iter(&self) -> (it: core::slice::Iter<'_, ChangeKind>)
        ensures
            vstd::std_specs::slice::into_iter_elts(it) == self.changes@,
    {
        broadcast use vstd::std_specs::slice::axiom_spec_slice_iter;

        let it = self.changes.as_slice().iter();
        proof {
            assert(vstd::std_specs::slice::into_iter_elts(it) =~= self.changes@);
        }
        it
    }

    /// The directory of the original tree.
    pub open spec fn original_dir(&self) -> Seq<char> {
        self.base_dir_original@
    }

    /// The directory of the modified tree.
    pub open spec fn modified_dir(&self) -> Seq<char> {
        self.base_dir_modified@
    }

    /// The file at `path` in the original tree.
    pub fn original_path(&self, path: &str) -> (r: String)
        ensures
            r@ == joined(self.original_dir(), path@),
    {
        join(self.base_dir_original.as_str(), path)
    }

    /// The file at `path` in the modified tree.
    pub fn modified_path(&self, path: &str) -> (r: String)
        ensures
            r@ == joined(self.modified_dir(), path@),
    {
        join(self.base_dir_modified.as_str(), path)
    }
}

/// What stands at a path that is to be compared.
#[derive(Clone, Copy, Debug, PartialEq, Eq, Structural)]
pub enum PathState {
    /// Nothing stands there.
    Missing,
    /// A file, or anything else that is no directory.
    File,
    /// A directory.
    Directory,
}

/// Why two paths cannot be compared.
#[derive(Debug)]
pub enum DetectError {
    /// Nothing stands at the path.
    NotFound(String),
    /// Both paths are files.
    FilesNotSupported,
    /// One path is a file and the other a directory.
    Mixed(String, String),
    /// A tree holds a symbolic link.
    Symlink,
}

/// The name of the file that carries instructions through a tree and is no
/// part of it.
pub open spec fn reserved_name() -> Seq<char> {
    "JJ-INSTRUCTIONS"@
}

impl DetectError {
    /// The error in words.
    pub open spec fn text(&self) -> Seq<char> {
        match self {
            DetectError::NotFound(p) => p@ + ": no such file or directory"@,
            DetectError::FilesNotSupported => "Diffing files is not implemented yet"@,
            DetectError::Mixed(a, b) => "Cannot diffpatch mix of path and directory "@ + a@
                + " and "@ + b@,
            DetectError::Symlink => "symlinks are not supported yet"@,
        }
    }

    /// The error in words.
    pub fn message(&self) -> (s: String)
        ensures
            s@ == self.text(),
    {
        let mut out: Vec<char> = Vec::new();
        match self {
            DetectError::NotFound(p) => {
                push_str(&mut out, p.as_str());
                push_str(&mut out, ": no such file or directory");
            },
            DetectError::FilesNotSupported => {
                push_str(&mut out, "Diffing files is not implemented yet");
            },
            DetectError::Mixed(a, b) => {
                push_str(&mut out, "Cannot diffpatch mix of path and directory ");
                push_str(&mut out, a.as_str());
                push_str(&mut out, " and ");
                push_str(&mut out, b.as_str());
            },
            DetectError::Symlink => {
                push_str(&mut out, "symlinks are not supported yet");
            },
        }
        string_of(out.as_slice())
    }
}

/// Whether the two paths can be compared: both must be directories. A
/// missing path is named, the original one first; two files are not
/// compared, nor a file with a directory.
pub fn read_changes(
    original: &str,
    original_state: PathState,
    modified: &str,
    modified_state: PathState,
) -> (r: Result<(), DetectError>)
    ensures
        r is Ok <==> original_state == PathState::Directory && modified_state
            == PathState::Directory,
        original_state == PathState::Missing ==> (r matches Err(DetectError::NotFound(p)) && p@
            == original@),
        original_state != PathState::Missing && modified_state == PathState::Missing ==> (
        r matches Err(DetectError::NotFound(p)) && p@ == modified@),
        original_state == PathState::File && modified_state == PathState::File ==> r matches Err(
            DetectError::FilesNotSupported,
        ),
        (original_state == PathState::File && modified_state == PathState::Directory) || (
        original_state == PathState::Directory && modified_state == PathState::File) ==> (
        r matches Err(DetectError::Mixed(a, b)) && a@ == original@ && b@ == modified@),
{
    match (original_state, modified_state) {
        (PathState::Missing, _) => Err(DetectError::NotFound(original.to_owned())),
        (_, PathState::Missing) => Err(DetectError::NotFound(modified.to_owned())),
        (PathState::Directory, PathState::Directory) => Ok(()),
        (PathState::File, PathState::File) => Err(DetectError::FilesNotSupported),
        _ => Err(DetectError::Mixed(original.to_owned(), modified.to_owned())),
    }
}

/// Whether an entry met while walking a tree is one of its files. A
/// symbolic link stops the walk; a directory is no file, and the file with
/// the reserved name is passed over.
pub fn read_diff_paths(file_name: &str, is_dir: bool, is_symlink: bool) -> (r: Result<
    bool,
    DetectError,
>)
    ensures
        is_symlink ==> r matches Err(DetectError::Symlink),
        !is_symlink ==> r == Ok::<bool, DetectError>(!is_dir && file_name@ != reserved_name()),
{
    if is_symlink {
        return Err(DetectError::Symlink);
    }
    if is_dir {
        return Ok(false);
    }
    let name = file_name.to_owned();
    let reserved = "JJ-INSTRUCTIONS".to_owned();
    Ok(!(name == reserved))
}

/// The paths that `cs` changes in the way `kind`.
pub open spec fn paths_of(cs: Seq<ChangeView>, kind: Kind) -> Set<Seq<char>> {
    Set::new(|p: Seq<char>| has_change(cs, kind, p))
}

/// The set of changes between two trees parts their paths in three: the
/// modified paths are those of both trees, the removed ones those of the
/// original tree alone, the added ones those of the modified tree alone. No
/// path is changed in two ways, and every path of either tree is changed.
pub proof fn lemma_changes_partition(cs: Seq<ChangeView>, a: Seq<Seq<char>>, b: Seq<Seq<char>>)
    requires
        detected(cs, a, b),
    ensures
        paths_of(cs, Kind::Modified) == a.to_set().intersect(b.to_set()),
        paths_of(cs, Kind::Removed) == a.to_set().difference(b.to_set()),
        paths_of(cs, Kind::Added) == b.to_set().difference(a.to_set()),
        paths_of(cs, Kind::Modified).disjoint(paths_of(cs, Kind::Removed)),
        paths_of(cs, Kind::Modified).disjoint(paths_of(cs, Kind::Added)),
        paths_of(cs, Kind::Removed).disjoint(paths_of(cs, Kind::Added)),
        paths_of(cs, Kind::Modified).union(paths_of(cs, Kind::Removed)).union(
            paths_of(cs, Kind::Added),
        ) == a.to_set().union(b.to_set()),
{
    assert forall|p: Seq<char>| a.to_set().contains(p) <==> a.contains(p) by {}
    assert forall|p: Seq<char>| b.to_set().contains(p) <==> b.contains(p) by {}
    assert(paths_of(cs, Kind::Modified) =~= a.to_set().intersect(b.to_set()));
    assert(paths_of(cs, Kind::Removed) =~= a.to_set().difference(b.to_set()));
    assert(paths_of(cs, Kind::Added) =~= b.to_set().difference(a.to_set()));
    assert(paths_of(cs, Kind::Modified).union(paths_of(cs, Kind::Removed)).union(
        paths_of(cs, Kind::Added),
    ) =~= a.to_set().union(b.to_set()));
}

/// In a set of changes no path occurs twice, whatever the kinds.
pub proof fn lemma_changes_distinct(
    cs: Seq<ChangeView>,
    a: Seq<Seq<char>>,
    b: Seq<Seq<char>>,
    i: int,
    j: int,
)
    requires
        detected(cs, a, b),
        0 <= i < j < cs.len(),
    ensures
        cs[i].path != cs[j].path,
{
    if cs[i].kind == cs[j].kind {
        crate::paths::lemma_path_lt_irreflexive(cs[i].path);
    } else {
        assert(has_change(cs, cs[i].kind, cs[i].path));
        assert(has_change(cs, cs[j].kind, cs[j].path));
    }
}

} // verus!
