//! A pool of files addressed by numeric identifiers: one identifier per
//! distinct content, and an index from import paths to identifiers.
use crate::path_index::PathIndex;
use crate::resource::same_bytes;
use std::rc::Rc;
use vstd::prelude::*;

verus! {

/// A file read from a bundle. Two files are equal when their bytes are.
#[derive(Debug)]
pub struct File {
    pub original_path: String,
    pub bytes: Vec<u8>,
}

impl PartialEq for File {
    fn eq(&self, other: &Self) -> (r: bool)
        ensures
            r == (self.bytes@ == other.bytes@),
    {
        same_bytes(&self.bytes, &other.bytes)
    }
}

impl vstd::std_specs::cmp::PartialEqSpecImpl for File {
    open spec fn obeys_eq_spec() -> bool {
        true
    }

    open spec fn eq_spec(&self, other: &File) -> bool {
        self.bytes@ == other.bytes@
    }
}

/// Whether some file of `s` holds the bytes `b`.
pub open spec fn holds_file_bytes(s: Seq<Rc<File>>, b: Seq<u8>) -> bool {
    exists|k: int| 0 <= k < s.len() && (#[trigger] s[k]).bytes@ == b
}

pub struct FilePool {
    files: Vec<Rc<File>>,
    path_to_id: PathIndex,
}

impl FilePool {
    /// The distinct files; a file's identifier is its position.
    pub closed spec fn files(&self) -> Seq<Rc<File>> {
        self.files@
    }

    /// The identifier recorded for each import path.
    pub closed spec fn path_ids(&self) -> Map<Seq<char>, usize> {
        self.path_to_id@
    }

    pub closed spec fn wf(&self) -> bool {
        &&& self.path_to_id.wf()
        &&& self.files@.len() <= u32::MAX + 1
        &&& forall|i: int, j: int|
            0 <= i < self.files@.len() && 0 <= j < self.files@.len() && i != j ==> (
            #[trigger] self.files@[i]).bytes@ != (#[trigger] self.files@[j]).bytes@
        &&& forall|p: Seq<char>|
            #[trigger] self.path_to_id@.contains_key(p) ==> self.path_to_id@[p]
                < self.files@.len()
    }

    /// No two files hold the same bytes.
    pub proof fn lemma_files_distinct(&self)
        requires
            self.wf(),
        ensures
            forall|i: int, j: int|
                0 <= i < self.files().len() && 0 <= j < self.files().len() && i != j ==> (
                #[trigger] self.files()[i]).bytes@ != (#[trigger] self.files()[j]).bytes@,
    {
    }

    pub fn new() -> (r: Self)
        ensures
            r.wf(),
            r.files() == Seq::<Rc<File>>::empty(),
            r.path_ids() == Map::<Seq<char>, usize>::empty(),
    {
        FilePool { files: Vec::new(), path_to_id: PathIndex::new() }
    }

    /// Adds `file` unless a file with the same bytes is held, records its
    /// path under the held file's identifier, and returns that identifier.
    pub fn insert(&mut self, file: File) -> (r: u32)
        requires
            old(self).wf(),
            old(self).files().len() <= u32::MAX,
        ensures
            final(self).wf(),
            r < final(self).files().len(),
            final(self).files()[r as int].bytes@ == file.bytes@,
            holds_file_bytes(old(self).files(), file.bytes@) ==> final(self).files() == old(
                self,
            ).files(),
            forall|k: int|
                0 <= k < old(self).files().len() && (#[trigger] old(self).files()[k]).bytes@
                    == file.bytes@ ==> r == k,
            !holds_file_bytes(old(self).files(), file.bytes@) ==> final(self).files() == old(
                self,
            ).files().push(Rc::new(file)) && r == old(self).files().len(),
            final(self).path_ids() == old(self).path_ids().insert(
                file.original_path@,
                r as usize,
            ),
    {
        let mut k: usize = 0;
        while k < self.files.len()
            invariant
                self.wf(),
                *self == *old(self),
                0 <= k <= self.files@.len(),
                forall|j: int| 0 <= j < k ==> (#[trigger] self.files@[j]).bytes@ != file.bytes@,
            decreases self.files@.len() - k,
        {
            if same_bytes(&self.files[k].bytes, &file.bytes) {
                self.path_to_id.set(file.original_path, k);
                return k as u32;
            }
            k = k + 1;
        }
        let id = self.files.len();
        let path = file.original_path.clone();
        let ghost f = file;
        self.files.push(Rc::new(file));
        proof {
            assert forall|i: int, j: int|
                0 <= i < self.files@.len() && 0 <= j < self.files@.len() && i != j implies (
            #[trigger] self.files@[i]).bytes@ != (#[trigger] self.files@[j]).bytes@ by {
                if i != id {
                    assert(self.files@[i] == old(self).files@[i]);
                }
                if j != id {
                    assert(self.files@[j] == old(self).files@[j]);
                }
            }
        }
        self.path_to_id.set(path, id);
        id as u32
    }

    /// The identifier recorded for `path`.
    pub fn get_id_from_path(&self, path: &str) -> (r: Option<u32>)
        requires
            self.wf(),
        ensures
            r == (if self.path_ids().contains_key(path@) {
                Some(self.path_ids()[path@] as u32)
            } else {
                None
            }),
    {
        match self.path_to_id.get(path) {
            Some(k) => Some(k as u32),
            None => None,
        }
    }

    /// The file with identifier `id`.
    pub fn get_file_from_id(&self, id: u32) -> (r: Option<Rc<File>>)
        requires
            self.wf(),
        ensures
            r == (if id < self.files().len() {
                Some(self.files()[id as int])
            } else {
                None
            }),
    {
        if (id as usize) < self.files.len() {
            Some(Rc::clone(&self.files[id as usize]))
        } else {
            None
        }
    }

    /// Drops the path index; the files and their identifiers stay.
    pub fn clear_path(&mut self)
        requires
            old(self).wf(),
        ensures
            final(self).wf(),
            final(self).files() == old(self).files(),
            final(self).path_ids() == Map::<Seq<char>, usize>::empty(),
    {
        self.path_to_id.clear();
    }
}

} // verus!
