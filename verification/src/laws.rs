//! The library's cross-cutting laws, stated and proved once over the
//! catalog model: uniqueness of a project's path, identity of a tag looked
//! up twice, idempotence of reconciliation, and the intersection meaning of
//! the tag filter.
use vstd::prelude::*;
use crate::catalog::{Catalog, ProjectRow, TagLink, files_synced};
use crate::file::ProjectFile;
use crate::project::{Project, ProjectTag};
use crate::reconcile::{FsEntry, dir_path_in, reconciled};

verus! {

/// A path identifies at most one project: two stored rows with the same
/// path are the same row.
pub proof fn lemma_path_identifies_project(c: Catalog, i: int, j: int)
    requires
        c.wf(),
        0 <= i < c.projects@.len(),
        0 <= j < c.projects@.len(),
        c.projects@[i].path@ == c.projects@[j].path@,
    ensures
        i == j,
{
    if i < j {
        assert(c.projects@[i].path@ != c.projects@[j].path@);
    }
    if j < i {
        assert(c.projects@[j].path@ != c.projects@[i].path@);
    }
}

/// Reconciling a root that lists a not-yet-stored subdirectory path
/// creates a project with that path, and exactly one: afterwards the path
/// is stored, and any two stored rows holding it are the same row.
pub proof fn lemma_reconcile_creates_exactly_one(
    pre: Catalog,
    post: Catalog,
    entries: Seq<FsEntry>,
    created: Seq<Project>,
    p: Seq<char>,
)
    requires
        post.wf(),
        reconciled(pre, post, entries, created),
        dir_path_in(entries, p),
    ensures
        post.has_project_path(p),
        forall|i: int, j: int|
            #![trigger post.projects@[i], post.projects@[j]]
            0 <= i < post.projects@.len() && 0 <= j < post.projects@.len()
                && post.projects@[i].path@ == p && post.projects@[j].path@ == p ==> i == j,
{
    assert forall|i: int, j: int|
        #![trigger post.projects@[i], post.projects@[j]]
        0 <= i < post.projects@.len() && 0 <= j < post.projects@.len() && post.projects@[i].path@
            == p && post.projects@[j].path@ == p implies i == j by {
        lemma_path_identifies_project(post, i, j);
    }
}

/// Reconciling twice in a row with no filesystem change writes nothing the
/// second time: the second run creates no project and leaves the catalog
/// exactly as the first run left it.
pub proof fn lemma_reconcile_idempotent(
    pre: Catalog,
    mid: Catalog,
    post: Catalog,
    entries: Seq<FsEntry>,
    first: Seq<Project>,
    second: Seq<Project>,
)
    requires
        reconciled(pre, mid, entries, first),
        reconciled(mid, post, entries, second),
    ensures
        second.len() == 0,
        post == mid,
{
    assert forall|p: Seq<char>| dir_path_in(entries, p) implies #[trigger] mid.has_project_path(
        p,
    ) by {}
}

/// Synchronizing a project's file set twice against the same live paths
/// writes nothing the second time: the second report is empty.
pub proof fn lemma_file_sync_idempotent(
    pre: Catalog,
    mid: Catalog,
    post: Catalog,
    project_id: i64,
    live: Seq<String>,
    added_first: Seq<ProjectFile>,
    removed_first: Seq<ProjectFile>,
    added_second: Seq<ProjectFile>,
    removed_second: Seq<ProjectFile>,
)
    requires
        files_synced(pre, mid, project_id, live, added_first, removed_first),
        files_synced(mid, post, project_id, live, added_second, removed_second),
    ensures
        added_second.len() == 0,
        removed_second.len() == 0,
{
    // the first run's set equality is exactly the premise under which the
    // second run's contract promises an empty report
}

/// At most one file of a project is flagged as the default, at all times:
/// two flagged rows of one project are the same row.
pub proof fn lemma_at_most_one_default(c: Catalog, i: int, j: int)
    requires
        c.wf(),
        0 <= i < c.files@.len(),
        0 <= j < c.files@.len(),
        c.files@[i].project_id == c.files@[j].project_id,
        c.files@[i].default,
        c.files@[j].default,
    ensures
        i == j,
{
    if i < j {
        assert(!(c.files@[i].default && c.files@[j].default));
    }
    if j < i {
        assert(!(c.files@[j].default && c.files@[i].default));
    }
}

/// Looking the same tag text up twice yields the same tag identity: the
/// tag table holds at most one row per text, so no duplicate is ever
/// created.
pub proof fn lemma_tag_text_identity(c: Catalog, t: ProjectTag, u: ProjectTag)
    requires
        c.wf(),
        c.tags@.contains(t),
        c.tags@.contains(u),
        t.tag@ == u.tag@,
    ensures
        t == u,
{
    let a = choose|a: int| 0 <= a < c.tags@.len() && c.tags@[a] == t;
    let b = choose|b: int| 0 <= b < c.tags@.len() && c.tags@[b] == u;
    if a < b {
        assert(c.tags@[a].tag@ != c.tags@[b].tag@);
    }
    if b < a {
        assert(c.tags@[b].tag@ != c.tags@[a].tag@);
    }
}

/// Tagging a project and then removing that tag leaves the project with
/// zero tag associations, while the tag row survives. `c0` is the catalog
/// before the tag was attached (the project has no associations there),
/// `c1` the catalog after attaching the tag with text `text`, and `c2` the
/// catalog after removing the tag `u` with that text: attaching added at
/// most one association and it was for `u`, so after the removal none is
/// left for the project.
pub proof fn lemma_tag_then_untag_leaves_no_association(
    c0: Catalog,
    c1: Catalog,
    c2: Catalog,
    project_id: i64,
    text: String,
    u: ProjectTag,
)
    requires
        c1.wf(),
        forall|l: TagLink| #[trigger] c0.links@.contains(l) ==> l.project_id != project_id,
        c1.links@ == c0.links@ || (exists|l: TagLink|
            #![trigger c0.links@.push(l)]
            c1.links@ == c0.links@.push(l) && l.project_id == project_id && (exists|i: int|
                0 <= i < c1.tags@.len() && (#[trigger] c1.tags@[i]).tag@ == text@ && l.tag_id
                    == c1.tags@[i].id)),
        c1.tags@.contains(u),
        u.tag@ == text@,
        !c2.has_link(project_id, u.id),
        forall|l: TagLink| #[trigger] c2.links@.contains(l) ==> c1.links@.contains(l),
    ensures
        forall|l: TagLink| #[trigger] c2.links@.contains(l) ==> l.project_id != project_id,
{
    assert forall|l: TagLink| #[trigger]
        c2.links@.contains(l) implies l.project_id != project_id by {
        if l.project_id == project_id {
            assert(c1.links@.contains(l));
            if c1.links@ == c0.links@ {
                assert(c0.links@.contains(l));
            } else {
                let l0 = choose|l0: TagLink|
                    #![trigger c0.links@.push(l0)]
                    c1.links@ == c0.links@.push(l0) && l0.project_id == project_id && (exists|
                        i: int,
                    |
                        0 <= i < c1.tags@.len() && (#[trigger] c1.tags@[i]).tag@ == text@
                            && l0.tag_id == c1.tags@[i].id);
                let w = choose|w: int| 0 <= w < c1.links@.len() && c1.links@[w] == l;
                if w < c0.links@.len() {
                    assert(c0.links@[w] == l);
                    assert(c0.links@.contains(l));
                } else {
                    assert(l == l0);
                    let i = choose|i: int|
                        0 <= i < c1.tags@.len() && (#[trigger] c1.tags@[i]).tag@ == text@
                            && l0.tag_id == c1.tags@[i].id;
                    lemma_tag_text_identity(c1, u, c1.tags@[i]);
                    let w2 = choose|w2: int| 0 <= w2 < c2.links@.len() && c2.links@[w2] == l;
                    assert((#[trigger] c2.links@[w2]).project_id == project_id
                        && c2.links@[w2].tag_id == u.id);
                    assert(c2.has_link(project_id, u.id));
                }
            }
        }
    }
}

/// The tag filter means intersection: a row returned by a query filtered
/// on a tag set is associated with every tag of the set, never just some.
pub proof fn lemma_tag_filter_is_intersection(
    c: Catalog,
    rows: Seq<ProjectRow>,
    name: Option<String>,
    path: Option<String>,
    ts: Vec<ProjectTag>,
    k: int,
    j: int,
)
    requires
        0 <= k < c.matching_rows(rows, name, path, Some(ts)).len(),
        0 <= j < ts@.len(),
    ensures
        c.has_link(c.matching_rows(rows, name, path, Some(ts))[k].id, ts@[j].id),
    decreases rows.len(),
{
    if rows.len() > 0 {
        let rest = c.matching_rows(rows.drop_last(), name, path, Some(ts));
        if c.row_matches(rows.last(), name, path, Some(ts)) {
            if k < rest.len() {
                lemma_tag_filter_is_intersection(c, rows.drop_last(), name, path, ts, k, j);
            }
        } else {
            lemma_tag_filter_is_intersection(c, rows.drop_last(), name, path, ts, k, j);
        }
    }
}

} // verus!
