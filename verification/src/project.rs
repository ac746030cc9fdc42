//! The project aggregate: a cataloged directory tree with its tracked
//! files, tag associations and external source references.
use vstd::prelude::*;
use crate::file::{ProjectFile, is_displayable_path};

verus! {

/// A label attached to projects, globally unique by its text.
#[derive(Debug)]
pub struct ProjectTag {
    pub id: i64,
    pub tag: String,
}

impl Clone for ProjectTag {
    /// A clone equals the original.
    fn clone(&self) -> (r: Self)
        ensures
            r == *self,
    {
        ProjectTag { id: self.id, tag: self.tag.clone() }
    }
}

/// A named external URL reference attached to a project.
#[derive(Debug)]
pub struct ProjectSource {
    pub id: i64,
    pub name: String,
    pub url: String,
    pub project_id: i64,
}

impl Clone for ProjectSource {
    /// A clone equals the original.
    fn clone(&self) -> (r: Self)
        ensures
            r == *self,
    {
        ProjectSource {
            id: self.id,
            name: self.name.clone(),
            url: self.url.clone(),
            project_id: self.project_id,
        }
    }
}

/// A cataloged fabrication project. `path` is its unique business key: no
/// two projects share a path. The child collections are loaded with the
/// project and owned by it.
#[derive(Debug)]
pub struct Project {
    pub id: i64,
    pub name: String,
    pub path: String,
    pub notes: String,
    pub files: Vec<ProjectFile>,
    pub tags: Vec<ProjectTag>,
    pub sources: Vec<ProjectSource>,
}

/// The file at index `i` is the first one flagged as the default.
pub open spec fn first_default_at(files: Seq<ProjectFile>, i: int) -> bool {
    &&& 0 <= i < files.len()
    &&& files[i].default
    &&& forall|j: int| 0 <= j < i ==> !files[j].default
}

/// No file is flagged as the default, and the file at index `i` is the
/// first displayable one.
pub open spec fn first_displayable_at(files: Seq<ProjectFile>, i: int) -> bool {
    &&& 0 <= i < files.len()
    &&& forall|j: int| 0 <= j < files.len() ==> !files[j].default
    &&& is_displayable_path(files[i].path@)
    &&& forall|j: int| 0 <= j < i ==> !is_displayable_path(files[j].path@)
}

impl Clone for Project {
    /// A clone keeps every field's value (the collections keep their
    /// elements in order).
    fn clone(&self) -> (r: Self)
        ensures
            r.id == self.id,
            r.name@ == self.name@,
            r.path@ == self.path@,
            r.notes@ == self.notes@,
            r.files@ == self.files@,
            r.tags@ == self.tags@,
            r.sources@ == self.sources@,
    {
        let files = self.files.clone();
        let tags = self.tags.clone();
        let sources = self.sources.clone();
        proof {
            assert(files@ =~= self.files@);
            assert(tags@ =~= self.tags@);
            assert(sources@ =~= self.sources@);
        }
        Project {
            id: self.id,
            name: self.name.clone(),
            path: self.path.clone(),
            notes: self.notes.clone(),
            files,
            tags,
            sources,
        }
    }
}

impl Project {
    /// The file whose image represents the project: the file flagged as the
    /// default when one exists, otherwise the first displayable file,
    /// otherwise none.
    pub fn get_default_or_first_image_file(&self) -> (r: Option<ProjectFile>)
        ensures
            match r {
                Some(f) => (exists|i: int|
                    #[trigger] first_default_at(self.files@, i) && f == self.files@[i]) || (
                exists|i: int|
                    #[trigger] first_displayable_at(self.files@, i) && f == self.files@[i]),
                None => forall|i: int|
                    0 <= i < self.files@.len() ==> !self.files@[i].default && !is_displayable_path(
                        self.files@[i].path@,
                    ),
            },
    {
        let n: usize = self.files.len();
        let mut i: usize = 0;
        while i < n
            invariant
                n == self.files@.len(),
                i <= n,
                forall|j: int| 0 <= j < i ==> !self.files@[j].default,
            decreases n - i,
        {
            if self.files[i].default {
                proof {
                    assert(first_default_at(self.files@, i as int));
                }
                return Some(self.files[i].clone());
            }
            i += 1;
        }
        let mut k: usize = 0;
        while k < n
            invariant
                n == self.files@.len(),
                k <= n,
                forall|j: int| 0 <= j < n ==> !self.files@[j].default,
                forall|j: int| 0 <= j < k ==> !is_displayable_path(self.files@[j].path@),
            decreases n - k,
        {
            if self.files[k].is_image_or_can_generate_to_image() {
                proof {
                    assert(first_displayable_at(self.files@, k as int));
                }
                return Some(self.files[k].clone());
            }
            k += 1;
        }
        None
    }
}

} // verus!
