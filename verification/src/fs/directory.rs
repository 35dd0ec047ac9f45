//! A directory: a name, file slots, child slots and a parent link.

use vstd::prelude::*;
use crate::fs::file::File;
use crate::fs::model::{
    file_names, file_well_formed, fresh_dir, is_position, lemma_position, lemma_position_found,
    position, truncated, DirModel, FileModel, MAX_DIRS, MAX_FILES,
};
use crate::fs::slots::{
    first_empty, lemma_fill_first_empty, lemma_occupied, lemma_replace_occupied, occupied, packed,
};
use crate::name::{is_plain, meaningful, Name, MAX_NAME};

verus! {

/// An index as contracts speak of it.
pub open spec fn index_of(r: Option<usize>) -> Option<int> {
    match r {
        Some(i) => Some(i as int),
        None => None,
    }
}

/// The files held in the occupied slots, in slot order.
pub closed spec fn file_views(slots: Seq<Option<File>>) -> Seq<FileModel> {
    Seq::new(occupied(slots) as nat, |k: int| slots[k]->0@)
}

/// The indices held in the occupied slots, in slot order.
pub closed spec fn child_indices(slots: Seq<Option<usize>>) -> Seq<int> {
    Seq::new(occupied(slots) as nat, |k: int| slots[k]->0 as int)
}

/// A directory with `MAX_FILES` file slots and `MAX_DIRS` child slots. Slots
/// fill from the left and are never emptied.
#[derive(Clone, Copy, Debug)]
pub struct Directory {
    name: Name,
    files: [Option<File>; MAX_FILES],
    dirs: [Option<usize>; MAX_DIRS],
    parent: Option<usize>,
}

impl View for Directory {
    type V = DirModel;

    /// The name, the files and children in the occupied slots, and the
    /// parent.
    closed spec fn view(&self) -> DirModel {
        DirModel {
            name: self.name@,
            files: file_views(self.files@),
            children: child_indices(self.dirs@),
            parent: index_of(self.parent),
        }
    }
}

impl Directory {
    /// Both slot arrays are packed and every file is well formed.
    pub closed spec fn wf(&self) -> bool {
        &&& packed(self.files@)
        &&& packed(self.dirs@)
        &&& forall|k: int|
            0 <= k < occupied(self.files@) ==> (#[trigger] self.files@[k])->0.wf()
    }

    /// A well-formed directory is within its capacities and its files are
    /// well formed.
    pub proof fn lemma_bounds(self)
        requires
            self.wf(),
        ensures
            self@.name.len() <= MAX_NAME,
            is_plain(self@.name),
            self@.files.len() <= MAX_FILES,
            self@.children.len() <= MAX_DIRS,
            forall|k: int| 0 <= k < self@.files.len() ==> file_well_formed(#[trigger] self@.files[k]),
    {
        self.name.lemma_bounds();
        lemma_occupied(self.files@);
        lemma_occupied(self.dirs@);
        assert forall|k: int| 0 <= k < self@.files.len() implies file_well_formed(
            #[trigger] self@.files[k],
        ) by {
            assert(self.files@[k]->0.wf());
            self.files@[k]->0.lemma_wf();
        }
    }

    /// An empty directory called `name`, created in `parent`.
    pub fn new(name: Name, parent: Option<usize>) -> (r: Directory)
        ensures
            r.wf(),
            r@ == fresh_dir(name@, index_of(parent)),
    {
        let r = Directory { name, files: [None; MAX_FILES], dirs: [None; MAX_DIRS], parent };
        proof {
            lemma_occupied(r.files@);
            lemma_occupied(r.dirs@);
            assert(occupied(r.files@) == 0) by {
                if occupied(r.files@) > 0 {
                    assert(r.files@[0] is Some);
                }
            }
            assert(occupied(r.dirs@) == 0) by {
                if occupied(r.dirs@) > 0 {
                    assert(r.dirs@[0] is Some);
                }
            }
            assert(r@.files =~= Seq::<FileModel>::empty());
            assert(r@.children =~= Seq::<int>::empty());
        }
        r
    }

    /// The directory's name.
    pub fn name(&self) -> (r: Name)
        ensures
            r@ == self@.name,
    {
        self.name
    }

    /// Arena index of the directory this one was created in; `None` for the
    /// root.
    pub fn parent(&self) -> (r: Option<usize>)
        ensures
            index_of(r) == self@.parent,
    {
        self.parent
    }

    /// Number of files in the directory.
    pub fn file_count(&self) -> (n: usize)
        ensures
            n == self@.files.len(),
            n <= MAX_FILES,
    {
        proof {
            lemma_occupied(self.files@);
        }
        first_empty(&self.files)
    }

    /// Number of child directories.
    pub fn child_count(&self) -> (n: usize)
        ensures
            n == self@.children.len(),
            n <= MAX_DIRS,
    {
        proof {
            lemma_occupied(self.dirs@);
        }
        first_empty(&self.dirs)
    }

    /// The file in slot `slot`.
    pub fn file(&self, slot: usize) -> (r: &File)
        requires
            self.wf(),
            slot < self@.files.len(),
        ensures
            r.wf(),
            r@ == self@.files[slot as int],
    {
        proof {
            lemma_occupied(self.files@);
            assert(self.files@[slot as int] is Some);
        }
        match &self.files[slot] {
            Some(f) => f,
            None => {
                proof {
                    assert(false);
                }
                unreached()
            },
        }
    }

    /// Arena index of the `k`-th child.
    pub fn child(&self, k: usize) -> (r: usize)
        requires
            k < self@.children.len(),
        ensures
            r == self@.children[k as int],
    {
        proof {
            lemma_occupied(self.dirs@);
            assert(self.dirs@[k as int] is Some);
        }
        match self.dirs[k] {
            Some(c) => c,
            None => {
                proof {
                    assert(false);
                }
                unreached()
            },
        }
    }

    /// Slot of the first file whose name is the meaningful prefix of `name`.
    pub fn find_file_slot(&self, name: &[u8]) -> (r: Option<usize>)
        requires
            self.wf(),
        ensures
            index_of(r) == position(file_names(self@), meaningful(name@)),
    {
        let ghost names = file_names(self@);
        let ghost target = meaningful(name@);
        proof {
            lemma_occupied(self.files@);
        }
        let mut i: usize = 0;
        while i < MAX_FILES
            invariant
                i <= MAX_FILES,
                self.wf(),
                names == file_names(self@),
                target == meaningful(name@),
                0 <= occupied(self.files@) <= MAX_FILES,
                forall|j: int| 0 <= j < i && j < names.len() ==> #[trigger] names[j] != target,
            decreases MAX_FILES - i,
        {
            match &self.files[i] {
                Some(file) => {
                    proof {
                        lemma_occupied(self.files@);
                        assert(i < occupied(self.files@)) by {
                            if i >= occupied(self.files@) {
                                assert(self.files@[i as int] is None);
                            }
                        }
                        assert(names[i as int] == file@.name);
                    }
                    if file.name().matches(name) {
                        proof {
                            assert(is_position(names, target, i as int));
                            lemma_position(names, target, i as int);
                        }
                        return Some(i);
                    }
                },
                None => {
                    proof {
                        lemma_occupied(self.files@);
                        assert(i >= names.len()) by {
                            if i < occupied(self.files@) {
                                assert(self.files@[i as int] is Some);
                            }
                        }
                    }
                },
            }
            i += 1;
        }
        proof {
            assert(is_position(names, target, names.len() as int));
            lemma_position(names, target, names.len() as int);
        }
        None
    }

    /// The first file whose name is the meaningful prefix of `name`.
    pub fn find_file(&self, name: &[u8]) -> (r: Option<&File>)
        requires
            self.wf(),
        ensures
            match position(file_names(self@), meaningful(name@)) {
                Some(k) => r is Some && r->0.wf() && r->0@ == self@.files[k],
                None => r is None,
            },
    {
        match self.find_file_slot(name) {
            Some(k) => {
                proof {
                    lemma_position_found(file_names(self@), meaningful(name@));
                }
                Some(self.file(k))
            },
            None => None,
        }
    }

    /// The first file whose name is the meaningful prefix of `name`, to be
    /// changed in place. The directory afterwards is the directory from
    /// before with that file as the caller left it.
    pub fn find_file_mut(&mut self, name: &[u8]) -> (r: Option<&mut File>)
        requires
            old(self).wf(),
        ensures
            match position(file_names(old(self)@), meaningful(name@)) {
                Some(k) => {
                    &&& r is Some
                    &&& r->0.wf()
                    &&& r->0@ == old(self)@.files[k]
                    &&& final(self)@ == (DirModel {
                        files: old(self)@.files.update(k, final(r->0)@),
                        ..old(self)@
                    })
                    &&& final(r->0).wf() ==> final(self).wf()
                },
                None => r is None && *final(self) == *old(self),
            },
    {
        proof {
            lemma_position_found(file_names(self@), meaningful(name@));
            lemma_occupied(self.files@);
        }
        match self.find_file_slot(name) {
            Some(k) => {
                proof {
                    let d1 = *self;
                    assert(d1.files@[k as int] is Some);
                    assert forall|d2: Directory, f: File|
                        #![trigger d2@, f@]
                        d2.name == d1.name && d2.dirs == d1.dirs && d2.parent == d1.parent
                            && d2.files@ == d1.files@.update(k as int, Some(f)) implies d2@ == (
                        DirModel { files: d1@.files.update(k as int, f@), ..d1@ }) && (f.wf()
                            ==> d2.wf()) by {
                        lemma_replace_occupied(d1.files@, k as int, f);
                        assert(d2@.files =~= d1@.files.update(k as int, f@));
                    }
                }
                self.files[k].as_mut()
            },
            None => None,
        }
    }

    /// Puts `f` into the first empty file slot and returns the slot; `None`,
    /// with nothing changed, when every slot is in use.
    pub fn push_file(&mut self, f: File) -> (r: Option<usize>)
        requires
            old(self).wf(),
            f.wf(),
        ensures
            final(self).wf(),
            match r {
                Some(k) => {
                    &&& k == old(self)@.files.len()
                    &&& k < MAX_FILES
                    &&& final(self)@ == (DirModel {
                        files: old(self)@.files.push(f@),
                        ..old(self)@
                    })
                },
                None => old(self)@.files.len() == MAX_FILES && *final(self) == *old(self),
            },
    {
        let k = first_empty(&self.files);
        proof {
            lemma_occupied(self.files@);
        }
        if k < MAX_FILES {
            self.files[k] = Some(f);
            proof {
                lemma_fill_first_empty(old(self).files@, f);
                assert(self.files@ == old(self).files@.update(k as int, Some(f)));
                assert(self@.files =~= old(self)@.files.push(f@));
            }
            Some(k)
        } else {
            None
        }
    }

    /// Puts `child` into the first empty child slot and returns the slot;
    /// `None`, with nothing changed, when every slot is in use.
    pub fn push_child(&mut self, child: usize) -> (r: Option<usize>)
        requires
            old(self).wf(),
        ensures
            final(self).wf(),
            match r {
                Some(k) => {
                    &&& k == old(self)@.children.len()
                    &&& k < MAX_DIRS
                    &&& final(self)@ == (DirModel {
                        children: old(self)@.children.push(child as int),
                        ..old(self)@
                    })
                },
                None => old(self)@.children.len() == MAX_DIRS && *final(self) == *old(self),
            },
    {
        let k = first_empty(&self.dirs);
        proof {
            lemma_occupied(self.dirs@);
        }
        if k < MAX_DIRS {
            self.dirs[k] = Some(child);
            proof {
                lemma_fill_first_empty(old(self).dirs@, child);
                assert(self.dirs@ == old(self).dirs@.update(k as int, Some(child)));
                assert(self@.children =~= old(self)@.children.push(child as int));
            }
            Some(k)
        } else {
            None
        }
    }

    /// Replaces the content of the file in slot `slot` by `bytes`, cut to what
    /// a file can hold.
    pub fn write_slot(&mut self, slot: usize, bytes: &[u8])
        requires
            old(self).wf(),
            slot < old(self)@.files.len(),
        ensures
            final(self).wf(),
            final(self)@ == (DirModel {
                files: old(self)@.files.update(
                    slot as int,
                    FileModel { data: truncated(bytes@), ..old(self)@.files[slot as int] },
                ),
                ..old(self)@
            }),
    {
        proof {
            lemma_occupied(self.files@);
            assert(self.files@[slot as int] is Some);
        }
        let mut file = *self.file(slot);
        file.write(bytes);
        self.files[slot] = Some(file);
        proof {
            lemma_replace_occupied(old(self).files@, slot as int, file);
            assert(self.files@ == old(self).files@.update(slot as int, Some(file)));
            assert(self@.files =~= old(self)@.files.update(
                slot as int,
                FileModel { data: truncated(bytes@), ..old(self)@.files[slot as int] },
            ));
        }
    }
}

} // verus!
