//! The filesystem as a mathematical value: a sequence of directories, each
//! with a sequence of files and a sequence of children, in creation order.

use vstd::prelude::*;
use crate::name::{is_plain, lemma_stored, meaningful, stored, MAX_NAME};
use crate::search::{first_true, is_first_true, lemma_first_true, lemma_first_true_unique};

verus! {

/// Files a directory can hold.
pub const MAX_FILES: usize = 16;

/// Child directories a directory can hold.
pub const MAX_DIRS: usize = 8;

/// Bytes a file can hold.
pub const MAX_DATA: usize = 256;

/// Directories the arena can hold, the root included.
pub const MAX_DIR_STORAGE: usize = 32;

/// Path components that a walk towards the root collects before it stops.
pub const MAX_DEPTH: usize = 8;

/// What a directory entry is.
#[derive(Clone, Copy, Debug, PartialEq, Eq, Structural)]
pub enum Kind {
    Directory,
    File,
}

/// A file: its name and its content.
pub struct FileModel {
    /// The name proper, without terminator or padding.
    pub name: Seq<u8>,
    /// The bytes the file holds.
    pub data: Seq<u8>,
}

/// A directory: its name, its files and its children in creation order, and
/// the directory it was created in. Children and parent are arena indices.
pub struct DirModel {
    /// The name proper, without terminator or padding.
    pub name: Seq<u8>,
    /// The files, in the order of their slots.
    pub files: Seq<FileModel>,
    /// The arena indices of the children, in the order of their slots.
    pub children: Seq<int>,
    /// The arena index of the parent; `None` for the root.
    pub parent: Option<int>,
}

/// The name of the root directory.
pub open spec fn root_name() -> Seq<u8> {
    seq![0x2fu8]
}

/// A directory as it is right after creation.
pub open spec fn fresh_dir(name: Seq<u8>, parent: Option<int>) -> DirModel {
    DirModel { name, files: Seq::empty(), children: Seq::empty(), parent }
}

/// The arena as it is at start: the root alone.
pub open spec fn initial_tree() -> Seq<DirModel> {
    seq![fresh_dir(root_name(), None)]
}

/// A file fits its fixed-size fields.
pub open spec fn file_well_formed(f: FileModel) -> bool {
    &&& f.name.len() <= MAX_NAME
    &&& is_plain(f.name)
    &&& f.data.len() <= MAX_DATA
}

/// Directory `i` of `t` fits its fixed-size fields, was created in a
/// directory older than itself, and is the parent of each of its children,
/// which are younger than itself.
pub open spec fn dir_well_formed(t: Seq<DirModel>, i: int) -> bool {
    let d = t[i];
    &&& d.name.len() <= MAX_NAME
    &&& is_plain(d.name)
    &&& d.files.len() <= MAX_FILES
    &&& d.children.len() <= MAX_DIRS
    &&& forall|k: int| 0 <= k < d.files.len() ==> file_well_formed(#[trigger] d.files[k])
    &&& i == 0 ==> d.parent is None
    &&& i > 0 ==> d.parent is Some && 0 <= d.parent->0 < i
    &&& forall|k: int|
        0 <= k < d.children.len() ==> i < (#[trigger] d.children[k]) < t.len() && t[d.children[k]].parent
            == Some(i)
}

/// The invariant of the arena: the root is directory 0, is named `/` and has
/// no parent; the arena is within its capacity; every directory is well
/// formed. Parents are older than their children, so parent links cannot form
/// a cycle.
pub open spec fn well_formed(t: Seq<DirModel>) -> bool {
    &&& 1 <= t.len() <= MAX_DIR_STORAGE
    &&& t[0].name == root_name()
    &&& forall|i: int| 0 <= i < t.len() ==> dir_well_formed(t, i)
}

/// For each name, whether it is `target`.
pub open spec fn matches_of(names: Seq<Seq<u8>>, target: Seq<u8>) -> Seq<bool> {
    Seq::new(names.len(), |i: int| names[i] == target)
}

/// Position of the first name equal to `target`.
pub open spec fn position(names: Seq<Seq<u8>>, target: Seq<u8>) -> Option<int> {
    let k = first_true(matches_of(names, target));
    if k < names.len() {
        Some(k)
    } else {
        None
    }
}

/// `k` is where a left-to-right search for `target` stops.
pub open spec fn is_position(names: Seq<Seq<u8>>, target: Seq<u8>, k: int) -> bool {
    &&& 0 <= k <= names.len()
    &&& forall|i: int| 0 <= i < k ==> #[trigger] names[i] != target
    &&& k < names.len() ==> names[k] == target
}

/// A search that stops at `k` has found the position, or found that there is
/// none.
pub proof fn lemma_position(names: Seq<Seq<u8>>, target: Seq<u8>, k: int)
    requires
        is_position(names, target, k),
    ensures
        position(names, target) == (if k < names.len() {
            Some(k)
        } else {
            None
        }),
{
    assert(is_first_true(matches_of(names, target), k));
    lemma_first_true_unique(matches_of(names, target), k);
}

/// What `position` finds is the first match; when it finds nothing there is
/// no match.
pub proof fn lemma_position_found(names: Seq<Seq<u8>>, target: Seq<u8>)
    ensures
        match position(names, target) {
            Some(k) => is_position(names, target, k) && k < names.len(),
            None => is_position(names, target, names.len() as int),
        },
{
    let flags = matches_of(names, target);
    lemma_first_true(flags);
    let k = first_true(flags);
    assert forall|i: int| 0 <= i < k implies #[trigger] names[i] != target by {
        assert(!flags[i]);
    }
    if k < names.len() {
        assert(flags[k]);
    }
}

/// The names of the files of `d`, in creation order.
pub open spec fn file_names(d: DirModel) -> Seq<Seq<u8>> {
    Seq::new(d.files.len(), |k: int| d.files[k].name)
}

/// The names of the children of directory `dir`, in creation order.
pub open spec fn child_names(t: Seq<DirModel>, dir: int) -> Seq<Seq<u8>> {
    Seq::new(t[dir].children.len(), |k: int| t[t[dir].children[k]].name)
}

/// Slot of the first file of directory `dir` named `name`.
pub open spec fn file_slot(t: Seq<DirModel>, dir: int, name: Seq<u8>) -> Option<int> {
    position(file_names(t[dir]), name)
}

/// Arena index of the first child of directory `dir` named `name`.
pub open spec fn child_named(t: Seq<DirModel>, dir: int, name: Seq<u8>) -> Option<int> {
    match position(child_names(t, dir), name) {
        Some(k) => Some(t[dir].children[k]),
        None => None,
    }
}

/// The entries of directory `dir` as a listing shows them: directories first,
/// then files, each group in creation order.
pub open spec fn listing(t: Seq<DirModel>, dir: int) -> Seq<(Kind, Seq<u8>)> {
    Seq::new(t[dir].children.len(), |k: int| (Kind::Directory, t[t[dir].children[k]].name))
        + Seq::new(t[dir].files.len(), |k: int| (Kind::File, t[dir].files[k].name))
}

/// The directory that `dir` was created in; the root for the root itself.
pub open spec fn parent_or_root(t: Seq<DirModel>, dir: int) -> int {
    match t[dir].parent {
        Some(p) => p,
        None => 0,
    }
}

/// The names on the way from the root down to `dir`, the root's own name left
/// out. The walk goes from `dir` towards the root and gives up after `bound`
/// names, so of a deeper directory only the last `bound` names are kept.
pub open spec fn path_of(t: Seq<DirModel>, dir: int, bound: nat) -> Seq<Seq<u8>>
    decreases bound,
{
    if dir == 0 || bound == 0 {
        Seq::empty()
    } else {
        path_of(t, parent_or_root(t, dir), (bound - 1) as nat).push(t[dir].name)
    }
}

/// Number of parent links between `dir` and the root.
pub open spec fn depth(t: Seq<DirModel>, dir: int) -> nat
    decreases dir,
{
    if 0 < dir < t.len() && 0 <= parent_or_root(t, dir) < dir {
        1 + depth(t, parent_or_root(t, dir))
    } else {
        0
    }
}

/// The directory reached from `dir` by following `n` parent links. The root
/// is its own parent here.
pub open spec fn ancestor(t: Seq<DirModel>, dir: int, n: nat) -> int
    decreases n,
{
    if n == 0 {
        dir
    } else {
        ancestor(t, parent_or_root(t, dir), (n - 1) as nat)
    }
}

/// Arena `u` holds everything that arena `t` holds: the directories of `t`
/// are still there under their names and with their parents, each still has
/// the children it had, in the same slots, and the files it had, in the same
/// slots and under the same names. Only the content of a file may differ.
pub open spec fn extends(t: Seq<DirModel>, u: Seq<DirModel>) -> bool {
    &&& t.len() <= u.len()
    &&& forall|i: int|
        0 <= i < t.len() ==> {
            &&& (#[trigger] u[i]).name == t[i].name
            &&& u[i].parent == t[i].parent
            &&& t[i].children.len() <= u[i].children.len()
            &&& t[i].files.len() <= u[i].files.len()
            &&& forall|k: int|
                0 <= k < t[i].children.len() ==> #[trigger] u[i].children[k] == t[i].children[k]
            &&& forall|k: int|
                0 <= k < t[i].files.len() ==> (#[trigger] u[i].files[k]).name == t[i].files[k].name
        }
}

/// `bytes` cut to what a file can hold.
pub open spec fn truncated(bytes: Seq<u8>) -> Seq<u8> {
    if bytes.len() <= MAX_DATA {
        bytes
    } else {
        bytes.take(MAX_DATA as int)
    }
}

/// An empty file called by what a name field keeps of `name`.
pub open spec fn new_file(name: Seq<u8>) -> FileModel {
    FileModel { name: stored(name), data: Seq::empty() }
}

/// The arena after a directory with no name yet was allocated for `parent`.
pub open spec fn with_allocated(t: Seq<DirModel>, parent: int) -> Seq<DirModel> {
    t.push(fresh_dir(Seq::empty(), Some(parent)))
}

/// The arena after a directory named `name` was created in `parent`.
pub open spec fn with_directory(t: Seq<DirModel>, parent: int, name: Seq<u8>) -> Seq<DirModel> {
    let child = t.len() as int;
    t.push(fresh_dir(stored(name), Some(parent))).update(
        parent,
        DirModel { children: t[parent].children.push(child), ..t[parent] },
    )
}

/// The arena after file `f` was added to directory `dir`.
pub open spec fn with_file(t: Seq<DirModel>, dir: int, f: FileModel) -> Seq<DirModel> {
    t.update(dir, DirModel { files: t[dir].files.push(f), ..t[dir] })
}

/// The arena after the file in slot `slot` of directory `dir` was replaced by
/// `f`.
pub open spec fn with_file_at(t: Seq<DirModel>, dir: int, slot: int, f: FileModel) -> Seq<
    DirModel,
> {
    t.update(dir, DirModel { files: t[dir].files.update(slot, f), ..t[dir] })
}

/// The arena after the content of the file in slot `slot` of directory `dir`
/// was replaced by `data`.
pub open spec fn with_data(t: Seq<DirModel>, dir: int, slot: int, data: Seq<u8>) -> Seq<
    DirModel,
> {
    t.update(
        dir,
        DirModel {
            files: t[dir].files.update(slot, FileModel { data, ..t[dir].files[slot] }),
            ..t[dir]
        },
    )
}

/// The arena after `bytes` was written to the file called `name` in directory
/// `dir`: over the first file of that name if there is one, else into a new
/// file. Either way the file holds `bytes`, cut to capacity, and nothing of
/// what it held before.
pub open spec fn with_written(t: Seq<DirModel>, dir: int, name: Seq<u8>, bytes: Seq<u8>) -> Seq<
    DirModel,
> {
    match file_slot(t, dir, meaningful(name)) {
        Some(k) => with_data(t, dir, k, truncated(bytes)),
        None => with_file(t, dir, FileModel { name: stored(name), data: truncated(bytes) }),
    }
}

/// Allocating a directory keeps the arena well formed.
pub proof fn lemma_with_allocated(t: Seq<DirModel>, parent: int)
    requires
        well_formed(t),
        0 <= parent < t.len(),
        t.len() < MAX_DIR_STORAGE,
    ensures
        well_formed(with_allocated(t, parent)),
{
    let after = with_allocated(t, parent);
    assert forall|i: int| 0 <= i < after.len() implies dir_well_formed(after, i) by {
        if i < t.len() {
            assert(dir_well_formed(t, i));
            assert(after[i] == t[i]);
        }
    }
}

/// Creating a directory keeps the arena well formed.
pub proof fn lemma_with_directory(t: Seq<DirModel>, parent: int, name: Seq<u8>)
    requires
        well_formed(t),
        0 <= parent < t.len(),
        t.len() < MAX_DIR_STORAGE,
        t[parent].children.len() < MAX_DIRS,
    ensures
        well_formed(with_directory(t, parent, name)),
{
    let after = with_directory(t, parent, name);
    let child = t.len() as int;
    lemma_stored(name);
    assert(dir_well_formed(t, 0));
    assert(dir_well_formed(t, parent));
    assert forall|i: int| 0 <= i < after.len() implies dir_well_formed(after, i) by {
        if i == child {
        } else if i == parent {
            assert forall|k: int| 0 <= k < after[i].children.len() implies i < (
            #[trigger] after[i].children[k]) < after.len() && after[after[i].children[k]].parent
                == Some(i) by {
                if k < t[parent].children.len() {
                    assert(after[i].children[k] == t[parent].children[k]);
                }
            }
        } else {
            assert(dir_well_formed(t, i));
            assert(after[i] == t[i]);
            assert forall|k: int| 0 <= k < after[i].children.len() implies i < (
            #[trigger] after[i].children[k]) < after.len() && after[after[i].children[k]].parent
                == Some(i) by {
                let c = t[i].children[k];
                assert(i < c < t.len());
                assert(dir_well_formed(t, c));
            }
        }
    }
}

/// Adding a well-formed file keeps the arena well formed.
pub proof fn lemma_with_file(t: Seq<DirModel>, dir: int, f: FileModel)
    requires
        well_formed(t),
        0 <= dir < t.len(),
        t[dir].files.len() < MAX_FILES,
        file_well_formed(f),
    ensures
        well_formed(with_file(t, dir, f)),
{
    let after = with_file(t, dir, f);
    assert forall|i: int| 0 <= i < after.len() implies dir_well_formed(after, i) by {
        assert(dir_well_formed(t, i));
        assert forall|k: int| 0 <= k < after[i].children.len() implies i < (
        #[trigger] after[i].children[k]) < after.len() && after[after[i].children[k]].parent
            == Some(i) by {
            let c = t[i].children[k];
            assert(i < c < t.len());
        }
        if i == dir {
            assert forall|k: int| 0 <= k < after[i].files.len() implies file_well_formed(
                #[trigger] after[i].files[k],
            ) by {
                if k < t[dir].files.len() {
                    assert(after[i].files[k] == t[dir].files[k]);
                }
            }
        }
    }
}

/// Replacing a file by a well-formed file keeps the arena well formed.
pub proof fn lemma_with_file_at(t: Seq<DirModel>, dir: int, slot: int, f: FileModel)
    requires
        well_formed(t),
        0 <= dir < t.len(),
        0 <= slot < t[dir].files.len(),
        file_well_formed(f),
    ensures
        well_formed(with_file_at(t, dir, slot, f)),
{
    let after = with_file_at(t, dir, slot, f);
    assert forall|i: int| 0 <= i < after.len() implies dir_well_formed(after, i) by {
        assert(dir_well_formed(t, i));
        assert forall|k: int| 0 <= k < after[i].children.len() implies i < (
        #[trigger] after[i].children[k]) < after.len() && after[after[i].children[k]].parent
            == Some(i) by {
            let c = t[i].children[k];
            assert(i < c < t.len());
        }
        if i == dir {
            assert forall|k: int| 0 <= k < after[i].files.len() implies file_well_formed(
                #[trigger] after[i].files[k],
            ) by {
                assert(file_well_formed(t[dir].files[k]));
            }
        }
    }
}

/// Replacing a file's content by at most `MAX_DATA` bytes keeps the arena
/// well formed.
pub proof fn lemma_with_data(t: Seq<DirModel>, dir: int, slot: int, data: Seq<u8>)
    requires
        well_formed(t),
        0 <= dir < t.len(),
        0 <= slot < t[dir].files.len(),
        data.len() <= MAX_DATA,
    ensures
        well_formed(with_data(t, dir, slot, data)),
{
    assert(dir_well_formed(t, dir));
    assert(file_well_formed(t[dir].files[slot]));
    lemma_with_file_at(t, dir, slot, FileModel { data, ..t[dir].files[slot] });
}

} // verus!
