//! The filesystem reconciler's decisions: which directory entries count as
//! project content, which subdirectories become new projects, and how a
//! scan is kept away from the reserved thumbnail-cache directory. The
//! directory listings themselves are read by the caller and handed in as
//! plain entries.
use vstd::prelude::*;
use crate::catalog::Catalog;
use crate::error::StoreError;
use crate::project::Project;
use crate::text::{contains_seq, contains_str, base_name, base_name_spec};

verus! {

/// One entry of a directory listing: its absolute path and whether it is a
/// directory.
#[derive(Debug)]
pub struct FsEntry {
    pub path: String,
    pub is_dir: bool,
}

impl Clone for FsEntry {
    /// A clone equals the original.
    fn clone(&self) -> (r: Self)
        ensures
            r == *self,
    {
        FsEntry { path: self.path.clone(), is_dir: self.is_dir }
    }
}

/// The name of the reserved, dot-prefixed directory that holds generated
/// thumbnails. Paths under it are never treated as project content.
pub open spec fn reserved_dir_name() -> Seq<char> {
    ".3DManager"@
}

/// The reserved thumbnail-cache directory's name, for callers that walk
/// the filesystem.
pub fn reserved_dir_component() -> (r: &'static str)
    ensures
        r@ == reserved_dir_name(),
{
    ".3DManager"
}

/// The path lies in (or is) the reserved thumbnail-cache directory.
pub open spec fn is_reserved(path: Seq<char>) -> bool {
    contains_seq(path, reserved_dir_name())
}

/// The path lies in (or is) the reserved thumbnail-cache directory.
pub fn is_reserved_path(path: &str) -> (r: bool)
    ensures
        r == is_reserved(path@),
{
    contains_str(path, ".3DManager")
}

/// The paths of the listed entries that count as project files: every
/// entry that is not a directory and does not lie in the reserved
/// thumbnail-cache directory, in listing order.
pub open spec fn live_file_paths(entries: Seq<FsEntry>) -> Seq<Seq<char>>
    decreases entries.len(),
{
    if entries.len() == 0 {
        Seq::empty()
    } else {
        let rest = live_file_paths(entries.drop_last());
        let e = entries.last();
        if !e.is_dir && !is_reserved(e.path@) {
            rest.push(e.path@)
        } else {
            rest
        }
    }
}

/// Some listed entry is a directory with this path.
pub open spec fn dir_path_in(entries: Seq<FsEntry>, p: Seq<char>) -> bool {
    exists|i: int|
        0 <= i < entries.len() && (#[trigger] entries[i]).is_dir && entries[i].path@ == p
}

/// What one reconciliation run of a root listing guarantees: every
/// subdirectory's path is now cataloged, nothing that existed was touched,
/// and `created` lists exactly the projects made for the paths that were
/// new, each named after its directory and empty. A run that found nothing
/// new changed nothing.
pub open spec fn reconciled(
    pre: Catalog,
    post: Catalog,
    entries: Seq<FsEntry>,
    created: Seq<Project>,
) -> bool {
    &&& forall|p: Seq<char>|
        #![trigger post.has_project_path(p)]
        #![trigger dir_path_in(entries, p)]
        post.has_project_path(p) <==> pre.has_project_path(p) || dir_path_in(entries, p)
    &&& forall|q: crate::catalog::ProjectRow|
        #[trigger] pre.projects@.contains(q) ==> post.projects@.contains(q)
    &&& forall|k: int|
        0 <= k < created.len() ==> {
            let p = #[trigger] created[k];
            &&& dir_path_in(entries, p.path@)
            &&& !pre.has_project_path(p.path@)
            &&& p.name@ == base_name_spec(p.path@)
            &&& p.notes@.len() == 0
            &&& p.files@.len() == 0
            &&& p.tags@.len() == 0
            &&& p.sources@.len() == 0
            &&& post.project_exists(p.id)
            &&& post.has_project_path(p.path@)
        }
    &&& forall|p: Seq<char>|
        dir_path_in(entries, p) && !pre.has_project_path(p) ==> exists|k: int|
            0 <= k < created.len() && (#[trigger] created[k]).path@ == p
    &&& (created.len() == 0 ==> post == pre)
    &&& ((forall|p: Seq<char>| dir_path_in(entries, p) ==> #[trigger] pre.has_project_path(p))
        ==> created.len() == 0)
}

impl Project {
    /// Selects, from a listing of the project's whole directory tree, the
    /// paths that count as its files: everything that is not a directory
    /// and is not inside the reserved thumbnail-cache directory.
    pub fn get_file_system_files(&self, entries: &Vec<FsEntry>) -> (r: Vec<String>)
        ensures
            r@.map_values(|s: String| s@) == live_file_paths(entries@),
    {
        let n: usize = entries.len();
        let mut out: Vec<String> = Vec::new();
        let mut i: usize = 0;
        while i < n
            invariant
                n == entries@.len(),
                i <= n,
                out@.map_values(|s: String| s@) == live_file_paths(entries@.take(i as int)),
            decreases n - i,
        {
            proof {
                assert(entries@.take(i + 1).drop_last() =~= entries@.take(i as int));
                assert(entries@.take(i + 1).last() == entries@[i as int]);
            }
            let e = &entries[i];
            if !e.is_dir && !is_reserved_path(e.path.as_str()) {
                out.push(e.path.clone());
                proof {
                    assert(out@.map_values(|s: String| s@) =~= live_file_paths(
                        entries@.take(i + 1),
                    ));
                }
            }
            i += 1;
        }
        proof {
            assert(entries@.take(n as int) =~= entries@);
        }
        out
    }
}

impl Catalog {
    /// Reconciles one watched root against its listing: every immediate
    /// subdirectory whose path is not yet cataloged becomes a new project,
    /// named after the directory's base name, with empty notes. Existing
    /// projects are left untouched, so running the reconciliation again
    /// with no filesystem change creates nothing. Returns the created
    /// projects.
    #[verifier::rlimit(60)]
    pub fn reconcile_dirs(&mut self, entries: &Vec<FsEntry>) -> (r: Result<
        Vec<Project>,
        StoreError,
    >)
        requires
            old(self).wf(),
        ensures
            final(self).wf(),
            final(self).files@ == old(self).files@,
            final(self).tags@ == old(self).tags@,
            final(self).links@ == old(self).links@,
            final(self).sources@ == old(self).sources@,
            old(self).next_id + entries@.len() <= i64::MAX ==> r is Ok,
            (forall|p: Seq<char>|
                #[trigger] dir_path_in(entries@, p) ==> old(self).has_project_path(p)) ==> r is Ok,
            match r {
                Ok(created) => reconciled(*old(self), *final(self), entries@, created@),
                Err(e) => e is IdSpace && old(self).next_id + entries@.len() > i64::MAX,
            },
    {
        let n: usize = entries.len();
        let mut created: Vec<Project> = Vec::new();
        let mut i: usize = 0;
        while i < n
            invariant
                self.wf(),
                old(self).wf(),
                n == entries@.len(),
                i <= n,
                self.files@ == old(self).files@,
                self.tags@ == old(self).tags@,
                self.links@ == old(self).links@,
                self.sources@ == old(self).sources@,
                old(self).next_id <= self.next_id <= old(self).next_id + i,
                forall|p: Seq<char>|
                    #![trigger self.has_project_path(p)]
                    self.has_project_path(p) <==> old(self).has_project_path(p) || dir_path_in(
                        entries@.take(i as int),
                        p,
                    ),
                forall|q: crate::catalog::ProjectRow|
                    #[trigger] old(self).projects@.contains(q) ==> self.projects@.contains(q),
                forall|k: int|
                    0 <= k < created@.len() ==> {
                        let p = #[trigger] created@[k];
                        &&& dir_path_in(entries@.take(i as int), p.path@)
                        &&& !old(self).has_project_path(p.path@)
                        &&& p.name@ == base_name_spec(p.path@)
                        &&& p.notes@.len() == 0
                        &&& p.files@.len() == 0
                        &&& p.tags@.len() == 0
                        &&& p.sources@.len() == 0
                        &&& self.project_exists(p.id)
                    },
                forall|j: int|
                    0 <= j < i && (#[trigger] entries@[j]).is_dir && !old(self).has_project_path(
                        entries@[j].path@,
                    ) ==> exists|k: int|
                        0 <= k < created@.len() && (#[trigger] created@[k]).path@
                            == entries@[j].path@,
                created@.len() == 0 ==> *self == *old(self),
            decreases n - i,
        {
            proof {
                assert forall|p: Seq<char>|
                    dir_path_in(entries@.take(i + 1), p) && !dir_path_in(
                        entries@.take(i as int),
                        p,
                    ) implies (#[trigger] entries@[i as int]).is_dir && entries@[i as int].path@
                    == p by {
                    let w = choose|w: int|
                        0 <= w < i + 1 && (#[trigger] entries@.take(i + 1)[w]).is_dir
                            && entries@.take(i + 1)[w].path@ == p;
                    if w < i {
                        assert(entries@.take(i as int)[w].is_dir && entries@.take(i as int)[w].path@
                            == p);
                    }
                }
                assert forall|p: Seq<char>|
                    dir_path_in(entries@.take(i as int), p) implies dir_path_in(
                    entries@.take(i + 1),
                    p,
                ) by {
                    let w = choose|w: int|
                        0 <= w < i && (#[trigger] entries@.take(i as int)[w]).is_dir
                            && entries@.take(i as int)[w].path@ == p;
                    assert(entries@.take(i + 1)[w].is_dir && entries@.take(i + 1)[w].path@ == p);
                }
                if entries@[i as int].is_dir {
                    assert(entries@.take(i + 1)[i as int].is_dir && entries@.take(i + 1)[i as int].path@
                        == entries@[i as int].path@);
                    assert(dir_path_in(entries@.take(i + 1), entries@[i as int].path@));
                }
            }
            let e = &entries[i];
            if e.is_dir {
                match self.find_project_by_path(&e.path) {
                    Some(j) => {
                        proof {
                            assert(self.has_project_path(e.path@)) by {
                                assert(self.projects@[j as int].path@ == e.path@);
                            }
                            assert forall|p2: Seq<char>| #[trigger]
                                self.has_project_path(p2) <==> (old(self).has_project_path(p2)
                                || dir_path_in(entries@.take(i + 1), p2)) by {
                                if dir_path_in(entries@.take(i + 1), p2) && !dir_path_in(
                                    entries@.take(i as int),
                                    p2,
                                ) {
                                    assert(p2 == e.path@);
                                }
                            }
                            if !old(self).has_project_path(e.path@) {
                                assert(dir_path_in(entries@.take(i as int), e.path@));
                                let j2 = choose|j2: int|
                                    0 <= j2 < i && (#[trigger] entries@.take(i as int)[j2]).is_dir
                                        && entries@.take(i as int)[j2].path@ == e.path@;
                                assert((#[trigger] entries@[j2]).is_dir && entries@[j2].path@
                                    == e.path@);
                            }
                        }
                    },
                    None => {
                        let name = base_name(e.path.as_str());
                        let blueprint = Project {
                            id: 0,
                            name,
                            path: e.path.clone(),
                            notes: String::new(),
                            files: Vec::new(),
                            tags: Vec::new(),
                            sources: Vec::new(),
                        };
                        let ghost pre = *self;
                        match self.create_project(&blueprint) {
                            Ok(p) => {
                                proof {
                                    let newi = pre.projects@.len() as int;
                                    assert(self.projects@[newi].path@ == e.path@);
                                    assert forall|q: crate::catalog::ProjectRow| #[trigger]
                                        pre.projects@.contains(q) implies self.projects@.contains(
                                        q,
                                    ) by {
                                        let w = choose|w: int|
                                            0 <= w < pre.projects@.len() && pre.projects@[w] == q;
                                        assert(self.projects@[w] == q);
                                    }
                                    assert forall|p2: Seq<char>|
                                        pre.has_project_path(p2) implies #[trigger] self.has_project_path(
                                        p2,
                                    ) by {
                                        let w = choose|w: int|
                                            0 <= w < pre.projects@.len() && (#[trigger] pre.projects@[w]).path@
                                                == p2;
                                        assert(self.projects@[w].path@ == p2);
                                    }
                                    assert forall|p2: Seq<char>| #[trigger]
                                        self.has_project_path(p2) implies pre.has_project_path(p2)
                                        || p2 == e.path@ by {
                                        let w = choose|w: int|
                                            0 <= w < self.projects@.len() && (#[trigger] self.projects@[w]).path@
                                                == p2;
                                        if w < newi {
                                            assert(pre.projects@[w].path@ == p2);
                                        }
                                    }
                                    assert forall|p2: Seq<char>| #[trigger]
                                        self.has_project_path(p2) <==> (old(
                                        self,
                                    ).has_project_path(p2) || dir_path_in(
                                        entries@.take(i + 1),
                                        p2,
                                    )) by {
                                        if dir_path_in(entries@.take(i + 1), p2) && !dir_path_in(
                                            entries@.take(i as int),
                                            p2,
                                        ) {
                                            assert(p2 == e.path@);
                                            assert(self.has_project_path(e.path@)) by {
                                                assert(self.projects@[newi].path@ == e.path@);
                                            }
                                        }
                                    }
                                    assert forall|k: int|
                                        0 <= k < created@.len() implies self.project_exists(
                                        (#[trigger] created@[k]).id,
                                    ) by {
                                        assert(pre.project_exists(created@[k].id));
                                        let w = choose|w: int|
                                            0 <= w < pre.projects@.len() && (#[trigger] pre.projects@[w]).id
                                                == created@[k].id;
                                        assert(self.projects@[w].id == created@[k].id);
                                    }
                                    assert(self.project_exists(p.id)) by {
                                        assert(self.projects@[newi].id == p.id);
                                    }
                                }
                                let ghost precreated = created@;
                                created.push(p);
                                proof {
                                    assert(created@[precreated.len() as int] == p);
                                    assert(dir_path_in(entries@.take(i + 1), p.path@));
                                    assert forall|j2: int|
                                        0 <= j2 < i + 1 && (#[trigger] entries@[j2]).is_dir && !old(
                                        self,
                                    ).has_project_path(entries@[j2].path@) implies exists|k: int|
                                        0 <= k < created@.len() && (#[trigger] created@[k]).path@
                                            == entries@[j2].path@ by {
                                        if j2 < i {
                                            let w = choose|w: int|
                                                0 <= w < precreated.len() && (
                                                #[trigger] precreated[w]).path@
                                                    == entries@[j2].path@;
                                            assert(created@[w].path@ == entries@[j2].path@);
                                        } else {
                                            assert(created@[precreated.len() as int].path@
                                                == entries@[j2].path@);
                                        }
                                    }
                                }
                            },
                            Err(_) => {
                                proof {
                                    assert(self.next_id == i64::MAX);
                                    assert(old(self).next_id + entries@.len() > i64::MAX);
                                    assert(dir_path_in(entries@, entries@[i as int].path@)) by {
                                        assert((#[trigger] entries@[i as int]).is_dir
                                            && entries@[i as int].path@
                                            == entries@[i as int].path@);
                                    }
                                    assert(!old(self).has_project_path(entries@[i as int].path@));
                                }
                                return Err(StoreError::IdSpace);
                            },
                        }
                    },
                }
            } else {
                proof {
                    assert forall|p2: Seq<char>| #[trigger]
                        dir_path_in(entries@.take(i + 1), p2) implies dir_path_in(
                        entries@.take(i as int),
                        p2,
                    ) by {
                        if !dir_path_in(entries@.take(i as int), p2) {
                            assert(entries@[i as int].is_dir);
                        }
                    }
                }
            }
            i += 1;
        }
        proof {
            assert(entries@.take(n as int) =~= entries@);
            assert forall|p: Seq<char>|
                #![trigger self.has_project_path(p)]
                #![trigger dir_path_in(entries@, p)]
                self.has_project_path(p) <==> (old(self).has_project_path(p) || dir_path_in(
                    entries@,
                    p,
                )) by {}
            assert forall|k: int|
                0 <= k < created@.len() implies {
                let p = #[trigger] created@[k];
                &&& dir_path_in(entries@, p.path@)
                &&& !old(self).has_project_path(p.path@)
                &&& p.name@ == base_name_spec(p.path@)
                &&& p.notes@.len() == 0
                &&& p.files@.len() == 0
                &&& p.tags@.len() == 0
                &&& p.sources@.len() == 0
                &&& self.project_exists(p.id)
                &&& self.has_project_path(p.path@)
            } by {
                assert(dir_path_in(entries@.take(n as int), created@[k].path@));
                assert(self.has_project_path(created@[k].path@)) by {
                    assert(dir_path_in(entries@, created@[k].path@));
                }
            }
            assert forall|p: Seq<char>|
                dir_path_in(entries@, p) && !old(self).has_project_path(p) implies exists|k: int|
                0 <= k < created@.len() && (#[trigger] created@[k]).path@ == p by {
                let j = choose|j: int|
                    0 <= j < entries@.len() && (#[trigger] entries@[j]).is_dir && entries@[j].path@
                        == p;
            }
            if (forall|p: Seq<char>|
                dir_path_in(entries@, p) ==> #[trigger] old(self).has_project_path(p))
                && created@.len() > 0 {
                let c0 = created@[0];
                assert(dir_path_in(entries@, c0.path@) && !old(self).has_project_path(c0.path@));
                assert(false);
            }
            assert(created@.len() == 0 ==> *self == *old(self));
            assert(forall|q: crate::catalog::ProjectRow|
                #[trigger] old(self).projects@.contains(q) ==> self.projects@.contains(q));
            assert(reconciled(*old(self), *self, entries@, created@));
        }
        Ok(created)
    }
}

} // verus!
