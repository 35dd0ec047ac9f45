//! What holds of the filesystem whatever its state: what is created is found
//! again, and creating one thing leaves the others as they were.

use vstd::prelude::*;
use crate::fs::model::{
    ancestor, child_named, child_names, depth, dir_well_formed, file_names, file_slot, is_position,
    lemma_position, lemma_position_found, new_file, parent_or_root, path_of, position,
    truncated, well_formed, with_directory, with_file, with_written, DirModel, MAX_DEPTH,
    MAX_DIRS, MAX_DIR_STORAGE, MAX_FILES,
};
use crate::fs::path::{lemma_prompt_whole, marker, path_text, prompt};
use crate::name::{lemma_stored, meaningful, meaningful_len, stored, MAX_NAME};

verus! {

/// A search through names with one more name at the end finds what it found
/// before; if it found nothing before, it finds the new name if that is the
/// one looked for.
pub proof fn lemma_position_push(names: Seq<Seq<u8>>, extra: Seq<u8>, target: Seq<u8>)
    ensures
        position(names.push(extra), target) == (match position(names, target) {
            Some(k) => Some(k),
            None => if extra == target {
                Some(names.len() as int)
            } else {
                None
            },
        }),
{
    lemma_position_found(names, target);
    let longer = names.push(extra);
    match position(names, target) {
        Some(k) => {
            assert(is_position(longer, target, k)) by {
                assert forall|i: int| 0 <= i < k implies #[trigger] longer[i] != target by {
                    assert(longer[i] == names[i]);
                }
            }
            lemma_position(longer, target, k);
        },
        None => {
            let n = names.len() as int;
            assert forall|i: int| 0 <= i < n implies #[trigger] longer[i] != target by {
                assert(longer[i] == names[i]);
            }
            if extra == target {
                assert(is_position(longer, target, n));
                lemma_position(longer, target, n);
            } else {
                assert(is_position(longer, target, n + 1));
                lemma_position(longer, target, n + 1);
            }
        },
    }
}

/// Round trip for files. After a file was created under a name that a name
/// field holds whole, looking that name up finds a file. It finds the file
/// just created unless the directory already had a file of that name, which
/// then is the one found, as before.
pub proof fn lemma_created_file_is_found(t: Seq<DirModel>, dir: int, name: Seq<u8>)
    requires
        well_formed(t),
        0 <= dir < t.len(),
        t[dir].files.len() < MAX_FILES,
        meaningful_len(name) <= MAX_NAME,
    ensures
        file_slot(with_file(t, dir, new_file(name)), dir, meaningful(name)) == (match file_slot(
            t,
            dir,
            meaningful(name),
        ) {
            Some(k) => Some(k),
            None => Some(t[dir].files.len() as int),
        }),
        with_file(t, dir, new_file(name))[dir].files[t[dir].files.len() as int] == new_file(name),
        new_file(name).name == meaningful(name),
{
    let after = with_file(t, dir, new_file(name));
    lemma_stored(name);
    assert(file_names(after[dir]) =~= file_names(t[dir]).push(stored(name)));
    lemma_position_push(file_names(t[dir]), stored(name), meaningful(name));
}

/// Creating a directory changes neither the name nor the parent of any
/// directory that was there before.
pub proof fn lemma_with_directory_frame(t: Seq<DirModel>, parent: int, name: Seq<u8>)
    requires
        0 <= parent < t.len(),
    ensures
        with_directory(t, parent, name).len() == t.len() + 1,
        forall|i: int|
            0 <= i < t.len() ==> (#[trigger] with_directory(t, parent, name)[i]).name == t[i].name
                && with_directory(t, parent, name)[i].parent == t[i].parent
                && with_directory(t, parent, name)[i].files == t[i].files,
        forall|i: int|
            0 <= i < t.len() && i != parent ==> #[trigger] with_directory(t, parent, name)[i]
                == t[i],
        with_directory(t, parent, name)[parent].children == t[parent].children.push(
            t.len() as int,
        ),
        with_directory(t, parent, name)[t.len() as int].name == stored(name),
        with_directory(t, parent, name)[t.len() as int].parent == Some(parent),
{
}

/// Round trip for directories. After a directory was created under a name
/// that a name field holds whole, looking that name up among the children of
/// its parent finds a directory of that name whose parent is that parent. It
/// finds the directory just created unless the parent already had a child of
/// that name, which then is the one found, as before.
pub proof fn lemma_created_directory_is_found(t: Seq<DirModel>, parent: int, name: Seq<u8>)
    requires
        well_formed(t),
        0 <= parent < t.len(),
        t.len() < MAX_DIR_STORAGE,
        t[parent].children.len() < MAX_DIRS,
        meaningful_len(name) <= MAX_NAME,
    ensures
        child_named(with_directory(t, parent, name), parent, meaningful(name)) == (
        match child_named(t, parent, meaningful(name)) {
            Some(c) => Some(c),
            None => Some(t.len() as int),
        }),
        ({
            let after = with_directory(t, parent, name);
            let found = child_named(after, parent, meaningful(name))->0;
            &&& 0 < found < after.len()
            &&& after[found].name == meaningful(name)
            &&& after[found].parent == Some(parent)
        }),
{
    let after = with_directory(t, parent, name);
    let target = meaningful(name);
    lemma_stored(name);
    lemma_with_directory_frame(t, parent, name);
    assert(dir_well_formed(t, parent));
    assert(child_names(after, parent) =~= child_names(t, parent).push(stored(name))) by {
        assert forall|k: int| 0 <= k < t[parent].children.len() implies child_names(
            after,
            parent,
        )[k] == child_names(t, parent)[k] by {
            let c = t[parent].children[k];
            assert(parent < c < t.len());
            assert(after[parent].children[k] == c);
        }
    }
    lemma_position_push(child_names(t, parent), stored(name), target);
    lemma_position_found(child_names(t, parent), target);
    match position(child_names(t, parent), target) {
        Some(k) => {
            let c = t[parent].children[k];
            assert(parent < c < t.len());
            assert(after[parent].children[k] == c);
            assert(child_names(t, parent)[k] == target);
        },
        None => {},
    }
}

/// Parent links lead to the root: from any directory the root is reached
/// after as many links as the directory is deep, and that is fewer than the
/// arena has slots. No chain of parents runs in a circle.
pub proof fn lemma_parents_reach_root(t: Seq<DirModel>, dir: int)
    requires
        well_formed(t),
        0 <= dir < t.len(),
    ensures
        ancestor(t, dir, depth(t, dir)) == 0,
        depth(t, dir) <= dir,
        depth(t, dir) < MAX_DIR_STORAGE,
        dir != 0 ==> depth(t, dir) > 0,
    decreases dir,
{
    assert(dir_well_formed(t, dir));
    if dir != 0 {
        lemma_parents_reach_root(t, parent_or_root(t, dir));
    }
}

/// As long as the bound is at least the depth of `dir`, the path of `dir`
/// does not depend on the bound: nothing is cut off.
pub proof fn lemma_path_within_bound(t: Seq<DirModel>, dir: int, bound: nat)
    requires
        well_formed(t),
        0 <= dir < t.len(),
        depth(t, dir) <= bound,
    ensures
        path_of(t, dir, bound) == path_of(t, dir, depth(t, dir)),
        path_of(t, dir, bound).len() == depth(t, dir),
    decreases dir,
{
    assert(dir_well_formed(t, dir));
    if dir != 0 {
        let p = parent_or_root(t, dir);
        lemma_path_within_bound(t, p, (bound - 1) as nat);
        lemma_path_within_bound(t, p, depth(t, p));
    }
}

/// The prompt of a directory shows its whole path. For a directory at most
/// `MAX_DEPTH` levels down whose names on the way from the root are not
/// empty, and a buffer that path and marker fit, the prompt is `/`, those
/// names with `/` between them, then `> `.
pub proof fn lemma_prompt_shows_whole_path(t: Seq<DirModel>, dir: int, cap: int)
    requires
        well_formed(t),
        0 <= dir < t.len(),
        depth(t, dir) <= MAX_DEPTH,
        forall|i: int|
            0 <= i < depth(t, dir) ==> (#[trigger] path_of(t, dir, depth(t, dir))[i]).len() > 0,
        path_text(path_of(t, dir, depth(t, dir))).len() + 2 <= cap,
    ensures
        prompt(path_of(t, dir, MAX_DEPTH as nat), cap) == path_text(
            path_of(t, dir, depth(t, dir)),
        ) + marker(),
{
    lemma_path_within_bound(t, dir, MAX_DEPTH as nat);
    lemma_prompt_whole(path_of(t, dir, depth(t, dir)), cap);
}

/// The path of a directory depends only on the names and the parents of the
/// directories above it: two arenas that agree on those for all the
/// directories of the first give the same path.
pub proof fn lemma_path_frame(t: Seq<DirModel>, u: Seq<DirModel>, dir: int, bound: nat)
    requires
        well_formed(t),
        0 <= dir < t.len() <= u.len(),
        forall|i: int|
            0 <= i < t.len() ==> (#[trigger] u[i]).name == t[i].name && u[i].parent == t[i].parent,
    ensures
        path_of(u, dir, bound) == path_of(t, dir, bound),
    decreases bound,
{
    assert(dir_well_formed(t, dir));
    if dir != 0 && bound != 0 {
        assert(u[dir].parent == t[dir].parent);
        lemma_path_frame(t, u, parent_or_root(t, dir), (bound - 1) as nat);
    }
}

/// After a write the file written to is found under its name and holds what
/// was written, cut to capacity, and nothing else. This holds for a name
/// that a name field holds whole, whether the file was there before or not.
pub proof fn lemma_written_is_read(t: Seq<DirModel>, dir: int, name: Seq<u8>, bytes: Seq<u8>)
    requires
        well_formed(t),
        0 <= dir < t.len(),
        file_slot(t, dir, meaningful(name)) is Some || t[dir].files.len() < MAX_FILES,
        meaningful_len(name) <= MAX_NAME,
    ensures
        ({
            let after = with_written(t, dir, name, bytes);
            &&& file_slot(after, dir, meaningful(name)) is Some
            &&& after[dir].files[file_slot(after, dir, meaningful(name))->0].data == truncated(
                bytes,
            )
            &&& after[dir].files.len() == (if file_slot(t, dir, meaningful(name)) is Some {
                t[dir].files.len()
            } else {
                t[dir].files.len() + 1
            })
        }),
{
    let after = with_written(t, dir, name, bytes);
    let target = meaningful(name);
    lemma_stored(name);
    lemma_position_found(file_names(t[dir]), target);
    match file_slot(t, dir, target) {
        Some(k) => {
            assert(file_names(after[dir]) =~= file_names(t[dir]));
        },
        None => {
            assert(file_names(after[dir]) =~= file_names(t[dir]).push(stored(name)));
            lemma_position_push(file_names(t[dir]), stored(name), target);
        },
    }
}

} // verus!
