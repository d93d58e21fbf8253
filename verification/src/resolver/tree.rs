//! A snapshot of the files and directories that the analysis can see.

use vstd::prelude::*;
use vstd::string::StringExecFns;
use crate::parser::directive::string_option_view;
use crate::text::{first_index, lemma_first_index, lemma_first_index_push};

verus! {

/// A file of the source tree.
#[derive(Debug, Clone)]
pub struct SourceFile {
    /// The absolute path of the file, in normal form.
    pub path: String,
    /// The text of the file; `None` where the file cannot be read.
    pub content: Option<String>,
}

/// The files and directories known to the analysis, by path.
///
/// Paths are compared as text. The resolver looks a candidate up under its
/// normal form, so the tree should hold absolute paths in normal form.
#[derive(Debug, Clone)]
pub struct SourceTree {
    /// The files, in the order in which they were added.
    pub files: Vec<SourceFile>,
    /// The directories, in the order in which they were added.
    pub dirs: Vec<String>,
}

impl SourceTree {
    /// The paths of the files, in order.
    pub open spec fn file_paths(&self) -> Seq<Seq<char>> {
        Seq::new(self.files@.len(), |i: int| self.files@[i].path@)
    }

    /// The paths of the directories, in order.
    pub open spec fn dir_paths(&self) -> Seq<Seq<char>> {
        Seq::new(self.dirs@.len(), |i: int| self.dirs@[i]@)
    }

    /// Whether the tree has a file at the path.
    pub open spec fn holds_file(&self, path: Seq<char>) -> bool {
        first_index(self.file_paths(), path) >= 0
    }

    /// Whether the tree has a directory at the path.
    pub open spec fn holds_dir(&self, path: Seq<char>) -> bool {
        first_index(self.dir_paths(), path) >= 0
    }

    /// The text of the file at the path; `None` where the tree has no such
    /// file or the file cannot be read.
    pub open spec fn text_of(&self, path: Seq<char>) -> Option<Seq<char>> {
        let i = first_index(self.file_paths(), path);
        if 0 <= i < self.files@.len() {
            string_option_view(self.files@[i].content)
        } else {
            None
        }
    }

    /// Creates an empty tree.
    pub fn new() -> (tree: SourceTree)
        ensures
            tree.files@.len() == 0,
            tree.dirs@.len() == 0,
    {
        SourceTree { files: Vec::new(), dirs: Vec::new() }
    }

    /// The position of the file at the path.
    pub fn find_file(&self, path: &str) -> (r: Option<usize>)
        ensures
            r is Some == self.holds_file(path@),
            r matches Some(i) ==> i == first_index(self.file_paths(), path@) && i
                < self.files@.len(),
    {
        let wanted = String::from_str(path);
        let mut i: usize = 0;
        assert(self.file_paths().subrange(0, 0) =~= Seq::<Seq<char>>::empty());
        while i < self.files.len()
            invariant
                i <= self.files@.len(),
                wanted@ == path@,
                first_index(self.file_paths().subrange(0, i as int), path@) == -1,
            decreases self.files@.len() - i,
        {
            proof {
                lemma_first_index_push(
                    self.file_paths().subrange(0, i as int),
                    self.files@[i as int].path@,
                    path@,
                );
                assert(self.file_paths().subrange(0, i as int).push(self.files@[i as int].path@)
                    =~= self.file_paths().subrange(0, i as int + 1));
            }
            if self.files[i].path == wanted {
                proof {
                    lemma_first_index(self.file_paths(), path@);
                    lemma_first_index(self.file_paths().subrange(0, i as int + 1), path@);
                    let k = first_index(self.file_paths(), path@);
                    if k < i {
                        lemma_first_index(self.file_paths().subrange(0, i as int), path@);
                        assert(self.file_paths().subrange(0, i as int)[k] == path@);
                    }
                }
                return Some(i);
            }
            i += 1;
        }
        assert(self.file_paths().subrange(0, i as int) =~= self.file_paths());
        None
    }

    /// Whether the tree has a file at the path.
    pub fn is_file(&self, path: &str) -> (r: bool)
        ensures
            r == self.holds_file(path@),
    {
        self.find_file(path).is_some()
    }

    /// Whether the tree has a directory at the path.
    pub fn is_dir(&self, path: &str) -> (r: bool)
        ensures
            r == self.holds_dir(path@),
    {
        let wanted = String::from_str(path);
        let mut i: usize = 0;
        assert(self.dir_paths().subrange(0, 0) =~= Seq::<Seq<char>>::empty());
        while i < self.dirs.len()
            invariant
                i <= self.dirs@.len(),
                wanted@ == path@,
                first_index(self.dir_paths().subrange(0, i as int), path@) == -1,
            decreases self.dirs@.len() - i,
        {
            proof {
                lemma_first_index_push(
                    self.dir_paths().subrange(0, i as int),
                    self.dirs@[i as int]@,
                    path@,
                );
                assert(self.dir_paths().subrange(0, i as int).push(self.dirs@[i as int]@)
                    =~= self.dir_paths().subrange(0, i as int + 1));
            }
            if self.dirs[i] == wanted {
                proof {
                    lemma_first_index(self.dir_paths(), path@);
                }
                return true;
            }
            i += 1;
        }
        assert(self.dir_paths().subrange(0, i as int) =~= self.dir_paths());
        false
    }

    /// The text of the file at the path.
    pub fn read(&self, path: &str) -> (r: Option<&String>)
        ensures
            r is Some == self.text_of(path@) is Some,
            r matches Some(text) ==> self.text_of(path@) == Some(text@),
    {
        match self.find_file(path) {
            Some(i) => match &self.files[i].content {
                Some(text) => Some(text),
                None => None,
            },
            None => {
                proof {
                    lemma_first_index(self.file_paths(), path@);
                }
                None
            },
        }
    }

    /// Adds a file with its text. A file that the tree holds at this path
    /// already gets the new text and keeps its place.
    pub fn add_file(&mut self, path: &str, content: &str)
        ensures
            final(self).file_paths() == if old(self).holds_file(path@) {
                old(self).file_paths()
            } else {
                old(self).file_paths().push(path@)
            },
            final(self).text_of(path@) == Some(content@),
            forall|q: Seq<char>| q != path@ ==> final(self).text_of(q) == old(self).text_of(q),
            final(self).dirs == old(self).dirs,
    {
        self.put(path, Some(String::from_str(content)));
    }

    /// Adds a file that exists but cannot be read.
    pub fn add_unreadable_file(&mut self, path: &str)
        ensures
            final(self).file_paths() == if old(self).holds_file(path@) {
                old(self).file_paths()
            } else {
                old(self).file_paths().push(path@)
            },
            final(self).text_of(path@) is None,
            forall|q: Seq<char>| q != path@ ==> final(self).text_of(q) == old(self).text_of(q),
            final(self).dirs == old(self).dirs,
    {
        self.put(path, None);
    }

    fn put(&mut self, path: &str, content: Option<String>)
        ensures
            final(self).file_paths() == if old(self).holds_file(path@) {
                old(self).file_paths()
            } else {
                old(self).file_paths().push(path@)
            },
            final(self).text_of(path@) == string_option_view(content),
            forall|q: Seq<char>| q != path@ ==> final(self).text_of(q) == old(self).text_of(q),
            final(self).dirs == old(self).dirs,
    {
        let ghost before = self.file_paths();
        let file = SourceFile { path: String::from_str(path), content };
        match self.find_file(path) {
            Some(i) => {
                self.files.set(i, file);
                proof {
                    lemma_first_index(before, path@);
                    assert(self.file_paths() =~= before);
                    assert forall|q: Seq<char>| q != path@ implies self.text_of(q) == old(
                        self,
                    ).text_of(q) by {
                        lemma_first_index(before, q);
                    }
                }
            },
            None => {
                self.files.push(file);
                proof {
                    assert(self.file_paths() =~= before.push(path@));
                    lemma_first_index_push(before, path@, path@);
                    assert forall|q: Seq<char>| q != path@ implies self.text_of(q) == old(
                        self,
                    ).text_of(q) by {
                        lemma_first_index_push(before, path@, q);
                        lemma_first_index(before, q);
                    }
                }
            },
        }
    }

    /// Adds a directory.
    pub fn add_dir(&mut self, path: &str)
        ensures
            final(self).dir_paths() == old(self).dir_paths().push(path@),
            final(self).holds_dir(path@),
            forall|q: Seq<char>| old(self).holds_dir(q) ==> final(self).holds_dir(q),
            forall|q: Seq<char>| q != path@ ==> final(self).holds_dir(q) == old(self).holds_dir(q),
            final(self).files == old(self).files,
    {
        let ghost before = self.dir_paths();
        self.dirs.push(String::from_str(path));
        proof {
            assert(self.dir_paths() =~= before.push(path@));
            assert forall|q: Seq<char>| true implies self.holds_dir(q) == (old(self).holds_dir(q)
                || q == path@) by {
                lemma_first_index_push(before, path@, q);
            }
        }
    }
}

} // verus!
