//! The directory arena: a fixed array of directory slots handed out in
//! order, never reused. Slot 0 is the root.

use vstd::prelude::*;
use crate::error::Error;
use crate::fs::directory::{index_of, Directory};
use crate::fs::file::File;
use crate::fs::model::{
    child_named, child_names, dir_well_formed, file_names, file_slot, initial_tree, is_position,
    lemma_position, lemma_position_found, lemma_with_allocated, lemma_with_data,
    lemma_with_directory, lemma_with_file, lemma_with_file_at, listing, new_file, root_name,
    truncated, well_formed, with_allocated, with_data, with_directory, with_file, with_file_at,
    with_written, DirModel, FileModel, Kind, MAX_DIRS, MAX_DIR_STORAGE, MAX_FILES,
};
use crate::name::{is_plain, lemma_stored, meaningful, stored, Name};

verus! {

/// One line of a directory listing.
#[derive(Clone, Copy, Debug)]
pub struct Entry {
    /// Whether it is a directory or a file.
    pub kind: Kind,
    /// Its name.
    pub name: Name,
}

/// Entries as contracts speak of them: the kind and the name proper.
pub open spec fn entries_view(entries: Seq<Entry>) -> Seq<(Kind, Seq<u8>)> {
    Seq::new(entries.len(), |i: int| (entries[i].kind, entries[i].name@))
}

/// The filesystem: `MAX_DIR_STORAGE` directory slots and the cursor that
/// says how many of them are allocated.
pub struct FilesystemArena {
    dirs: [Directory; MAX_DIR_STORAGE],
    next: usize,
}

impl View for FilesystemArena {
    type V = Seq<DirModel>;

    /// The allocated directories, in allocation order.
    closed spec fn view(&self) -> Seq<DirModel> {
        Seq::new(self.next as nat, |i: int| self.dirs@[i]@)
    }
}

impl FilesystemArena {
    /// The cursor is within the arena, every allocated directory is well
    /// formed, and the tree they form is.
    pub closed spec fn wf(&self) -> bool {
        &&& 1 <= self.next <= MAX_DIR_STORAGE
        &&& forall|i: int| 0 <= i < self.next ==> (#[trigger] self.dirs@[i]).wf()
        &&& well_formed(self@)
    }

    /// A well-formed arena has a well-formed model.
    pub proof fn lemma_wf(self)
        requires
            self.wf(),
        ensures
            well_formed(self@),
    {
    }

    /// The arena at start: the root alone, empty.
    pub fn new() -> (r: FilesystemArena)
        ensures
            r.wf(),
            r@ == initial_tree(),
    {
        let blank = Directory::new(Name::empty(), None);
        let mut dirs = [blank; MAX_DIR_STORAGE];
        dirs[0] = Directory::new(Name::root(), None);
        let r = FilesystemArena { dirs, next: 1 };
        proof {
            assert(r@ =~= initial_tree());
            r.dirs@[0].lemma_bounds();
            assert(is_plain(root_name()));
            assert(dir_well_formed(r@, 0));
        }
        r
    }

    /// Number of allocated directories, the root included. Valid directory
    /// indices are those below it.
    pub fn len(&self) -> (n: usize)
        requires
            self.wf(),
        ensures
            n == self@.len(),
            1 <= n <= MAX_DIR_STORAGE,
    {
        self.next
    }

    /// The directory at index `idx`.
    pub fn dir(&self, idx: usize) -> (r: &Directory)
        requires
            self.wf(),
            idx < self@.len(),
        ensures
            r.wf(),
            r@ == self@[idx as int],
    {
        &self.dirs[idx]
    }

    /// Takes the next unused slot for an empty, nameless directory whose
    /// parent is `parent`, and returns its index. With the arena full it
    /// returns `None` and allocates nothing.
    pub fn alloc_dir(&mut self, parent: usize) -> (r: Option<usize>)
        requires
            old(self).wf(),
            parent < old(self)@.len(),
        ensures
            final(self).wf(),
            match r {
                Some(idx) => {
                    &&& old(self)@.len() < MAX_DIR_STORAGE
                    &&& idx == old(self)@.len()
                    &&& final(self)@ == with_allocated(old(self)@, parent as int)
                },
                None => old(self)@.len() == MAX_DIR_STORAGE && final(self)@ == old(self)@,
            },
    {
        if self.next < MAX_DIR_STORAGE {
            let idx = self.next;
            self.dirs[idx] = Directory::new(Name::empty(), Some(parent));
            self.next = idx + 1;
            proof {
                assert(self@ =~= with_allocated(old(self)@, parent as int));
                lemma_with_allocated(old(self)@, parent as int);
            }
            Some(idx)
        } else {
            None
        }
    }

    /// Creates a directory called `name` in `parent`: takes the next unused
    /// arena slot, names it, and enters it in the first empty child slot of
    /// `parent`. Fails, with nothing changed, when `parent` has no empty child
    /// slot or the arena is full.
    pub fn mkdir(&mut self, parent: usize, name: &[u8]) -> (r: Result<usize, Error>)
        requires
            old(self).wf(),
            parent < old(self)@.len(),
        ensures
            final(self).wf(),
            match r {
                Ok(idx) => {
                    &&& old(self)@.len() < MAX_DIR_STORAGE
                    &&& old(self)@[parent as int].children.len() < MAX_DIRS
                    &&& idx == old(self)@.len()
                    &&& final(self)@ == with_directory(old(self)@, parent as int, name@)
                },
                Err(e) => {
                    &&& e == Error::CapacityExceeded
                    &&& old(self)@.len() == MAX_DIR_STORAGE || old(self)@[parent as int].children.len()
                        == MAX_DIRS
                    &&& final(self)@ == old(self)@
                },
            },
    {
        if self.dirs[parent].child_count() >= MAX_DIRS || self.next >= MAX_DIR_STORAGE {
            return Err(Error::CapacityExceeded);
        }
        let idx = self.next;
        self.dirs[idx] = Directory::new(Name::new(name), Some(parent));
        self.next = idx + 1;
        let slot = self.dirs[parent].push_child(idx);
        proof {
            assert(slot is Some);
            assert(self@ =~= with_directory(old(self)@, parent as int, name@));
            lemma_with_directory(old(self)@, parent as int, name@);
        }
        Ok(idx)
    }

    /// The first child of `dir`, in slot order, whose name is the meaningful
    /// prefix of `name`.
    pub fn find_dir(&self, dir: usize, name: &[u8]) -> (r: Option<usize>)
        requires
            self.wf(),
            dir < self@.len(),
        ensures
            index_of(r) == child_named(self@, dir as int, meaningful(name@)),
            r is Some ==> r->0 < self@.len(),
    {
        let ghost names = child_names(self@, dir as int);
        let ghost target = meaningful(name@);
        let d = &self.dirs[dir];
        let n = d.child_count();
        assert(dir_well_formed(self@, dir as int));
        let mut k: usize = 0;
        while k < n
            invariant
                k <= n,
                self.wf(),
                dir < self@.len(),
                *d == self.dirs@[dir as int],
                n == self@[dir as int].children.len(),
                names == child_names(self@, dir as int),
                target == meaningful(name@),
                dir_well_formed(self@, dir as int),
                forall|j: int| 0 <= j < k ==> #[trigger] names[j] != target,
            decreases n - k,
        {
            let c = d.child(k);
            assert(dir < self@[dir as int].children[k as int] < self@.len());
            if self.dirs[c].name().matches(name) {
                proof {
                    assert(is_position(names, target, k as int));
                    lemma_position(names, target, k as int);
                }
                return Some(c);
            }
            k += 1;
        }
        proof {
            assert(is_position(names, target, names.len() as int));
            lemma_position(names, target, names.len() as int);
        }
        None
    }

    /// The first file of `dir`, in slot order, whose name is the meaningful
    /// prefix of `name`.
    pub fn find_file(&self, dir: usize, name: &[u8]) -> (r: Option<&File>)
        requires
            self.wf(),
            dir < self@.len(),
        ensures
            match file_slot(self@, dir as int, meaningful(name@)) {
                Some(k) => r is Some && r->0.wf() && r->0@ == self@[dir as int].files[k],
                None => r is None,
            },
    {
        self.dirs[dir].find_file(name)
    }

    /// The first file of `dir`, in slot order, whose name is the meaningful
    /// prefix of `name`, to be changed in place. The arena afterwards is the
    /// arena from before with that file as the caller left it.
    pub fn find_file_mut(&mut self, dir: usize, name: &[u8]) -> (r: Option<&mut File>)
        requires
            old(self).wf(),
            dir < old(self)@.len(),
        ensures
            match file_slot(old(self)@, dir as int, meaningful(name@)) {
                Some(k) => {
                    &&& r is Some
                    &&& r->0.wf()
                    &&& r->0@ == old(self)@[dir as int].files[k]
                    &&& final(self)@ == with_file_at(old(self)@, dir as int, k, final(r->0)@)
                    &&& final(r->0).wf() ==> final(self).wf()
                },
                None => r is None && final(self)@ == old(self)@ && final(self).wf(),
            },
    {
        proof {
            let a1 = *self;
            let t = a1@;
            lemma_position_found(file_names(t[dir as int]), meaningful(name@));
            match file_slot(t, dir as int, meaningful(name@)) {
                Some(k) => {
                    assert forall|a2: FilesystemArena, f: File|
                        #![trigger a2@, f@]
                        a2.next == a1.next && (forall|i: int|
                            0 <= i < MAX_DIR_STORAGE && i != dir ==> #[trigger] a2.dirs@[i]
                                == a1.dirs@[i]) && a2.dirs@[dir as int]@ == (DirModel {
                            files: t[dir as int].files.update(k, f@),
                            ..t[dir as int]
                        }) && (f.wf() ==> a2.dirs@[dir as int].wf()) implies a2@ == with_file_at(
                        t,
                        dir as int,
                        k,
                        f@,
                    ) && (f.wf() ==> a2.wf()) by {
                        assert(a2@ =~= with_file_at(t, dir as int, k, f@));
                        if f.wf() {
                            f.lemma_wf();
                            lemma_with_file_at(t, dir as int, k, f@);
                            assert forall|i: int| 0 <= i < a2.next implies (
                            #[trigger] a2.dirs@[i]).wf() by {
                                if i != dir {
                                    assert(a1.dirs@[i].wf());
                                }
                            }
                        }
                    }
                },
                None => {
                    assert forall|a2: FilesystemArena|
                        a2.next == a1.next && a2.dirs@ == a1.dirs@ implies #[trigger] a2@ == t
                        && a2.wf() by {
                        assert(a2@ =~= t);
                    }
                },
            }
        }
        self.dirs[dir].find_file_mut(name)
    }

    /// Puts an empty file called `name` into the first empty file slot of
    /// `dir` and returns the slot. Fails, with nothing changed, when `dir` has
    /// no empty file slot. An existing file of the same name is no obstacle.
    pub fn create_file(&mut self, dir: usize, name: &[u8]) -> (r: Result<usize, Error>)
        requires
            old(self).wf(),
            dir < old(self)@.len(),
        ensures
            final(self).wf(),
            match r {
                Ok(slot) => {
                    &&& slot == old(self)@[dir as int].files.len()
                    &&& slot < MAX_FILES
                    &&& final(self)@ == with_file(old(self)@, dir as int, new_file(name@))
                },
                Err(e) => {
                    &&& e == Error::CapacityExceeded
                    &&& old(self)@[dir as int].files.len() == MAX_FILES
                    &&& final(self)@ == old(self)@
                },
            },
    {
        let file = File::new(Name::new(name));
        match self.dirs[dir].push_file(file) {
            Some(slot) => {
                proof {
                    assert(self@ =~= with_file(old(self)@, dir as int, new_file(name@)));
                    file.lemma_wf();
                    lemma_with_file(old(self)@, dir as int, new_file(name@));
                }
                Ok(slot)
            },
            None => {
                proof {
                    assert(self@ =~= old(self)@);
                }
                Err(Error::CapacityExceeded)
            },
        }
    }

    /// Writes `bytes`, cut to what a file can hold, to the file called `name`
    /// in `dir`, and returns its slot. The first file of that name is
    /// overwritten; if there is none, the file is created first. Fails, with
    /// nothing changed, when the file is absent and `dir` has no empty file
    /// slot.
    pub fn write_file(&mut self, dir: usize, name: &[u8], bytes: &[u8]) -> (r: Result<
        usize,
        Error,
    >)
        requires
            old(self).wf(),
            dir < old(self)@.len(),
        ensures
            final(self).wf(),
            match r {
                Ok(slot) => {
                    &&& match file_slot(old(self)@, dir as int, meaningful(name@)) {
                        Some(k) => slot == k,
                        None => slot == old(self)@[dir as int].files.len() && slot < MAX_FILES,
                    }
                    &&& final(self)@ == with_written(old(self)@, dir as int, name@, bytes@)
                },
                Err(e) => {
                    &&& e == Error::CapacityExceeded
                    &&& file_slot(old(self)@, dir as int, meaningful(name@)) is None
                    &&& old(self)@[dir as int].files.len() == MAX_FILES
                    &&& final(self)@ == old(self)@
                },
            },
    {
        proof {
            lemma_position_found(file_names(self@[dir as int]), meaningful(name@));
        }
        match self.dirs[dir].find_file_slot(name) {
            Some(slot) => {
                self.dirs[dir].write_slot(slot, bytes);
                proof {
                    assert(self@ =~= with_data(
                        old(self)@,
                        dir as int,
                        slot as int,
                        truncated(bytes@),
                    ));
                    lemma_with_data(old(self)@, dir as int, slot as int, truncated(bytes@));
                }
                Ok(slot)
            },
            None => {
                let file = File::new(Name::new(name));
                match self.dirs[dir].push_file(file) {
                    Some(slot) => {
                        self.dirs[dir].write_slot(slot, bytes);
                        proof {
                            let f = FileModel { name: stored(name@), data: truncated(bytes@) };
                            assert(self@[dir as int].files =~= old(self)@[dir as int].files.push(
                                f,
                            ));
                            assert(self@ =~= with_file(old(self)@, dir as int, f));
                            lemma_stored(name@);
                            lemma_with_file(old(self)@, dir as int, f);
                        }
                        Ok(slot)
                    },
                    None => {
                        proof {
                            assert(self@ =~= old(self)@);
                        }
                        Err(Error::CapacityExceeded)
                    },
                }
            },
        }
    }

    /// The entries of `dir`: its child directories in slot order, then its
    /// files in slot order.
    pub fn list(&self, dir: usize) -> (r: Vec<Entry>)
        requires
            self.wf(),
            dir < self@.len(),
        ensures
            entries_view(r@) == listing(self@, dir as int),
    {
        let d = &self.dirs[dir];
        let ghost t = self@;
        let ghost dm = t[dir as int];
        assert(dir_well_formed(t, dir as int));
        let mut out: Vec<Entry> = Vec::new();
        let n = d.child_count();
        let mut k: usize = 0;
        while k < n
            invariant
                k <= n,
                self.wf(),
                dir < self@.len(),
                t == self@,
                dm == t[dir as int],
                *d == self.dirs@[dir as int],
                n == dm.children.len(),
                dir_well_formed(t, dir as int),
                out@.len() == k,
                entries_view(out@) == Seq::new(
                    k as nat,
                    |j: int| (Kind::Directory, t[dm.children[j]].name),
                ),
            decreases n - k,
        {
            let c = d.child(k);
            assert(dir < dm.children[k as int] < t.len());
            let ghost before = out@;
            out.push(Entry { kind: Kind::Directory, name: self.dirs[c].name() });
            k += 1;
            proof {
                let want = Seq::new(k as nat, |j: int| (Kind::Directory, t[dm.children[j]].name));
                assert forall|j: int| 0 <= j < k implies entries_view(out@)[j] == want[j] by {
                    if j < k - 1 {
                        assert(entries_view(before)[j] == want[j]);
                        assert(out@[j] == before[j]);
                    }
                }
                assert(entries_view(out@) =~= want);
            }
        }
        let m = d.file_count();
        let ghost head = entries_view(out@);
        let mut k: usize = 0;
        while k < m
            invariant
                k <= m,
                self.wf(),
                dir < self@.len(),
                t == self@,
                dm == t[dir as int],
                *d == self.dirs@[dir as int],
                d.wf(),
                m == dm.files.len(),
                out@.len() == head.len() + k,
                entries_view(out@) == head + Seq::new(
                    k as nat,
                    |j: int| (Kind::File, dm.files[j].name),
                ),
            decreases m - k,
        {
            let ghost before = out@;
            out.push(Entry { kind: Kind::File, name: d.file(k).name() });
            k += 1;
            proof {
                let had = head + Seq::new((k - 1) as nat, |j: int| (Kind::File, dm.files[j].name));
                let want = head + Seq::new(k as nat, |j: int| (Kind::File, dm.files[j].name));
                assert(entries_view(before) == had);
                assert forall|j: int| 0 <= j < want.len() implies entries_view(out@)[j]
                    == want[j] by {
                    if j < want.len() - 1 {
                        assert(entries_view(before)[j] == had[j]);
                        assert(out@[j] == before[j]);
                    }
                }
                assert(entries_view(out@) =~= want);
            }
        }
        out
    }
}

} // verus!
