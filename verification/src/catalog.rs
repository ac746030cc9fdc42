//! The relational catalog: the in-memory model of the stored tables
//! (projects, files, tags, tag associations, sources) with the rules that
//! relate them. Every read and every mutation of project data goes through
//! this model; the database mirrors it row for row.
use vstd::prelude::*;
use crate::error::StoreError;
use crate::text::{contains_seq, contains_str, str_le, lex_le, lemma_lex_le_total, lemma_lex_le_trans};
use crate::file::ProjectFile;
use crate::project::{Project, ProjectTag, ProjectSource};

verus! {

/// A stored project row: the scalar attributes of a project. The child
/// collections (files, tags, sources) live in the other tables and are
/// gathered when a project is loaded.
#[derive(Debug)]
pub struct ProjectRow {
    pub id: i64,
    pub name: String,
    pub path: String,
    pub notes: String,
}

impl Clone for ProjectRow {
    /// A clone equals the original.
    fn clone(&self) -> (r: Self)
        ensures
            r == *self,
    {
        ProjectRow {
            id: self.id,
            name: self.name.clone(),
            path: self.path.clone(),
            notes: self.notes.clone(),
        }
    }
}

/// One project-to-tag association row.
#[derive(Debug, Clone, Copy, PartialEq, Eq, Structural)]
pub struct TagLink {
    pub project_id: i64,
    pub tag_id: i64,
}

/// The whole catalog. `next_id` is the next fresh row identifier; one
/// counter serves all tables.
#[derive(Debug)]
pub struct Catalog {
    pub projects: Vec<ProjectRow>,
    pub files: Vec<ProjectFile>,
    pub tags: Vec<ProjectTag>,
    pub links: Vec<TagLink>,
    pub sources: Vec<ProjectSource>,
    pub next_id: i64,
}

/// The live path list contains this path.
pub open spec fn live_contains(live: Seq<String>, p: Seq<char>) -> bool {
    exists|k: int| 0 <= k < live.len() && (#[trigger] live[k])@ == p
}

/// Some row among `files` belongs to the given project and has this path.
pub open spec fn rows_have_path(files: Seq<ProjectFile>, project_id: i64, path: Seq<char>) -> bool {
    exists|i: int|
        0 <= i < files.len() && (#[trigger] files[i]).project_id == project_id && files[i].path@
            == path
}

/// What one file reconciliation changed: the rows inserted because their
/// path was live but unknown, and the rows deleted because their path was
/// known but no longer live. An empty report means the store already
/// matched the filesystem and nothing was written.
pub struct SyncReport {
    pub added: Vec<ProjectFile>,
    pub removed: Vec<ProjectFile>,
}

/// The live path list contains this path.
pub(crate) fn vec_contains_path(live: &Vec<String>, p: &String) -> (r: bool)
    ensures
        r == live_contains(live@, p@),
{
    let n: usize = live.len();
    let mut i: usize = 0;
    while i < n
        invariant
            n == live@.len(),
            i <= n,
            forall|k: int| 0 <= k < i ==> (#[trigger] live@[k])@ != p@,
        decreases n - i,
    {
        if live[i].eq(p) {
            return true;
        }
        i += 1;
    }
    false
}

/// Some row among `files` belongs to the given project and has this path.
pub(crate) fn rows_have_path_exec(files: &Vec<ProjectFile>, project_id: i64, p: &String) -> (r:
    bool)
    ensures
        r == rows_have_path(files@, project_id, p@),
{
    let n: usize = files.len();
    let mut i: usize = 0;
    while i < n
        invariant
            n == files@.len(),
            i <= n,
            forall|k: int|
                0 <= k < i ==> !((#[trigger] files@[k]).project_id == project_id
                    && files@[k].path@ == p@),
        decreases n - i,
    {
        if files[i].project_id == project_id && files[i].path.eq(p) {
            return true;
        }
        i += 1;
    }
    false
}

/// What one file reconciliation guarantees, `pre` the catalog before and
/// `post` the catalog after: the project's known-file set equals the live
/// path set; rows of other projects and still-live rows are carried over
/// unchanged; stale rows are gone; `added` and `removed` list exactly the
/// inserted and deleted rows; and a project whose stored set already
/// equaled the live set saw nothing inserted or deleted.
pub open spec fn files_synced(
    pre: Catalog,
    post: Catalog,
    project_id: i64,
    live: Seq<String>,
    added: Seq<ProjectFile>,
    removed: Seq<ProjectFile>,
) -> bool {
    &&& forall|p: Seq<char>|
        #![trigger post.has_file_path(project_id, p)]
        #![trigger live_contains(live, p)]
        post.has_file_path(project_id, p) <==> live_contains(live, p)
    &&& forall|q: ProjectFile|
        #[trigger] pre.files@.contains(q) && (q.project_id != project_id || live_contains(
            live,
            q.path@,
        )) ==> post.files@.contains(q)
    &&& forall|q: ProjectFile|
        #[trigger] post.files@.contains(q) ==> pre.files@.contains(q) || (q.project_id
            == project_id && live_contains(live, q.path@) && q.notes is None && !q.default
            && pre.next_id <= q.id)
    &&& forall|q: ProjectFile|
        #[trigger] pre.files@.contains(q) && q.project_id == project_id && !live_contains(
            live,
            q.path@,
        ) ==> !post.files@.contains(q)
    &&& forall|a: int|
        0 <= a < added.len() ==> post.files@.contains(#[trigger] added[a])
            && !pre.files@.contains(added[a])
    &&& forall|q: ProjectFile|
        #[trigger] post.files@.contains(q) && !pre.files@.contains(q) ==> added.contains(q)
    &&& forall|a: int|
        0 <= a < removed.len() ==> pre.files@.contains(#[trigger] removed[a])
            && removed[a].project_id == project_id && !live_contains(live, removed[a].path@)
    &&& forall|q: ProjectFile|
        #[trigger] pre.files@.contains(q) && q.project_id == project_id && !live_contains(
            live,
            q.path@,
        ) ==> removed.contains(q)
    &&& ((forall|p: Seq<char>|
        #![trigger pre.has_file_path(project_id, p)]
        #![trigger live_contains(live, p)]
        pre.has_file_path(project_id, p) <==> live_contains(live, p)) ==> added.len() == 0
        && removed.len() == 0)
}

/// The file rows are in ascending path order.
pub open spec fn sorted_by_path(files: Seq<ProjectFile>) -> bool {
    forall|i: int, j: int|
        #![trigger files[i], files[j]]
        0 <= i < j < files.len() ==> lex_le(files[i].path@, files[j].path@)
}

/// Inserting an element anywhere adds exactly it to the sequence's
/// multiset.
proof fn lemma_insert_to_multiset<A>(s: Seq<A>, pos: int, x: A)
    requires
        0 <= pos <= s.len(),
    ensures
        s.insert(pos, x).to_multiset() == s.to_multiset().insert(x),
{
    broadcast use vstd::multiset::group_multiset_axioms;

    let a = s.subrange(0, pos);
    let b = s.subrange(pos, s.len() as int);
    vstd::seq_lib::lemma_multiset_commutative(a.push(x), b);
    vstd::seq_lib::lemma_multiset_commutative(a, b);
    a.to_multiset_ensures();
    assert(a + b =~= s);
    assert(s.insert(pos, x).to_multiset() =~= s.to_multiset().insert(x));
}

/// Where a file path belongs in an ascending list: the first index whose
/// stored path does not precede it.
fn file_insert_pos(out: &Vec<ProjectFile>, path: &String) -> (pos: usize)
    ensures
        pos <= out@.len(),
        forall|k: int| 0 <= k < pos ==> lex_le((#[trigger] out@[k]).path@, path@),
        pos < out@.len() ==> !lex_le(out@[pos as int].path@, path@),
{
    let n: usize = out.len();
    let mut i: usize = 0;
    while i < n
        invariant
            n == out@.len(),
            i <= n,
            forall|k: int| 0 <= k < i ==> lex_le((#[trigger] out@[k]).path@, path@),
        decreases n - i,
    {
        if !str_le(out[i].path.as_str(), path.as_str()) {
            return i;
        }
        i += 1;
    }
    n
}

/// Orders file rows by path, ascending; the rows themselves are kept
/// (the result is a permutation).
fn sort_files_by_path(files: Vec<ProjectFile>) -> (r: Vec<ProjectFile>)
    ensures
        r@.to_multiset() == files@.to_multiset(),
        sorted_by_path(r@),
{
    let n: usize = files.len();
    let mut out: Vec<ProjectFile> = Vec::new();
    let mut i: usize = 0;
    proof {
        assert(files@.take(0) =~= out@);
    }
    while i < n
        invariant
            n == files@.len(),
            i <= n,
            out@.to_multiset() == files@.take(i as int).to_multiset(),
            sorted_by_path(out@),
        decreases n - i,
    {
        let f = files[i].clone();
        let ghost fv = f;
        let pos = file_insert_pos(&out, &f.path);
        let ghost oldout = out@;
        out.insert(pos, f);
        proof {
            lemma_insert_to_multiset(oldout, pos as int, fv);
            assert(files@.take(i + 1) =~= files@.take(i as int).push(files@[i as int]));
            files@.take(i as int).to_multiset_ensures();
            assert(out@.to_multiset() =~= files@.take(i + 1).to_multiset());
            oldout.insert_ensures(pos as int, fv);
            let p = pos as int;
            assert forall|x: int, y: int|
                #![trigger out@[x], out@[y]]
                0 <= x < y < out@.len() implies lex_le(out@[x].path@, out@[y].path@) by {
                if y < p {
                    assert(out@[x] == oldout[x]);
                    assert(out@[y] == oldout[y]);
                } else if y == p {
                    assert(out@[x] == oldout[x]);
                    assert(lex_le(oldout[x].path@, fv.path@));
                } else if x < p {
                    assert(out@[x] == oldout[x]);
                    assert(out@[y] == oldout[y - 1]);
                    if y - 1 == x {
                        assert(lex_le(oldout[x].path@, fv.path@));
                        assert(p < oldout.len());
                        lemma_lex_le_total(oldout[p].path@, fv.path@);
                        lemma_lex_le_trans(oldout[x].path@, fv.path@, oldout[p].path@);
                    }
                } else if x == p {
                    assert(out@[y] == oldout[y - 1]);
                    assert(p < oldout.len());
                    lemma_lex_le_total(oldout[p].path@, fv.path@);
                    if y - 1 > p {
                        lemma_lex_le_trans(fv.path@, oldout[p].path@, oldout[y - 1].path@);
                    }
                } else {
                    assert(out@[x] == oldout[x - 1]);
                    assert(out@[y] == oldout[y - 1]);
                }
            }
        }
        i += 1;
    }
    proof {
        assert(files@.take(n as int) =~= files@);
    }
    out
}

/// The tag rows are in ascending text order.
pub open spec fn sorted_by_tag_text(tags: Seq<ProjectTag>) -> bool {
    forall|i: int, j: int|
        #![trigger tags[i], tags[j]]
        0 <= i < j < tags.len() ==> lex_le(tags[i].tag@, tags[j].tag@)
}

/// Where a tag text belongs in an ascending list: the first index whose
/// stored text does not precede it.
fn tag_insert_pos(out: &Vec<ProjectTag>, text: &String) -> (pos: usize)
    ensures
        pos <= out@.len(),
        forall|k: int| 0 <= k < pos ==> lex_le((#[trigger] out@[k]).tag@, text@),
        pos < out@.len() ==> !lex_le(out@[pos as int].tag@, text@),
{
    let n: usize = out.len();
    let mut i: usize = 0;
    while i < n
        invariant
            n == out@.len(),
            i <= n,
            forall|k: int| 0 <= k < i ==> lex_le((#[trigger] out@[k]).tag@, text@),
        decreases n - i,
    {
        if !str_le(out[i].tag.as_str(), text.as_str()) {
            return i;
        }
        i += 1;
    }
    n
}

/// Orders tag rows by text, ascending; the rows themselves are kept (the
/// result is a permutation).
fn sort_tags_by_text(tags: Vec<ProjectTag>) -> (r: Vec<ProjectTag>)
    ensures
        r@.to_multiset() == tags@.to_multiset(),
        sorted_by_tag_text(r@),
{
    let n: usize = tags.len();
    let mut out: Vec<ProjectTag> = Vec::new();
    let mut i: usize = 0;
    proof {
        assert(tags@.take(0) =~= out@);
    }
    while i < n
        invariant
            n == tags@.len(),
            i <= n,
            out@.to_multiset() == tags@.take(i as int).to_multiset(),
            sorted_by_tag_text(out@),
        decreases n - i,
    {
        let t = tags[i].clone();
        let ghost tv = t;
        let pos = tag_insert_pos(&out, &t.tag);
        let ghost oldout = out@;
        out.insert(pos, t);
        proof {
            lemma_insert_to_multiset(oldout, pos as int, tv);
            assert(tags@.take(i + 1) =~= tags@.take(i as int).push(tags@[i as int]));
            tags@.take(i as int).to_multiset_ensures();
            assert(out@.to_multiset() =~= tags@.take(i + 1).to_multiset());
            oldout.insert_ensures(pos as int, tv);
            let p = pos as int;
            assert forall|x: int, y: int|
                #![trigger out@[x], out@[y]]
                0 <= x < y < out@.len() implies lex_le(out@[x].tag@, out@[y].tag@) by {
                if y < p {
                    assert(out@[x] == oldout[x]);
                    assert(out@[y] == oldout[y]);
                } else if y == p {
                    assert(out@[x] == oldout[x]);
                    assert(lex_le(oldout[x].tag@, tv.tag@));
                } else if x < p {
                    assert(out@[x] == oldout[x]);
                    assert(out@[y] == oldout[y - 1]);
                    if y - 1 == x {
                        assert(lex_le(oldout[x].tag@, tv.tag@));
                        assert(p < oldout.len());
                        lemma_lex_le_total(oldout[p].tag@, tv.tag@);
                        lemma_lex_le_trans(oldout[x].tag@, tv.tag@, oldout[p].tag@);
                    }
                } else if x == p {
                    assert(out@[y] == oldout[y - 1]);
                    assert(p < oldout.len());
                    lemma_lex_le_total(oldout[p].tag@, tv.tag@);
                    if y - 1 > p {
                        lemma_lex_le_trans(tv.tag@, oldout[p].tag@, oldout[y - 1].tag@);
                    }
                } else {
                    assert(out@[x] == oldout[x - 1]);
                    assert(out@[y] == oldout[y - 1]);
                }
            }
        }
        i += 1;
    }
    proof {
        assert(tags@.take(n as int) =~= tags@);
    }
    out
}

/// The projects are in ascending name order.
pub open spec fn sorted_by_name(ps: Seq<Project>) -> bool {
    forall|i: int, j: int|
        #![trigger ps[i], ps[j]]
        0 <= i < j < ps.len() ==> lex_le(ps[i].name@, ps[j].name@)
}

/// `out` is `input` rearranged by the index permutation `perm`.
pub open spec fn permutation_of(perm: Seq<int>, out: Seq<Project>, input: Seq<Project>) -> bool {
    &&& perm.len() == out.len()
    &&& out.len() == input.len()
    &&& forall|k: int|
        0 <= k < perm.len() ==> 0 <= #[trigger] perm[k] < input.len() && out[k] == input[perm[k]]
    &&& forall|a: int, b: int|
        #![trigger perm[a], perm[b]]
        0 <= a < b < perm.len() ==> perm[a] != perm[b]
}

/// Where a project name belongs in an ascending list: the first index
/// whose stored name does not precede it.
fn project_insert_pos(out: &Vec<Project>, name: &String) -> (pos: usize)
    ensures
        pos <= out@.len(),
        forall|k: int| 0 <= k < pos ==> lex_le((#[trigger] out@[k]).name@, name@),
        pos < out@.len() ==> !lex_le(out@[pos as int].name@, name@),
{
    let n: usize = out.len();
    let mut i: usize = 0;
    while i < n
        invariant
            n == out@.len(),
            i <= n,
            forall|k: int| 0 <= k < i ==> lex_le((#[trigger] out@[k]).name@, name@),
        decreases n - i,
    {
        if !str_le(out[i].name.as_str(), name.as_str()) {
            return i;
        }
        i += 1;
    }
    n
}

/// Orders projects by name, ascending; the aggregates themselves are kept
/// (the result is the input rearranged by some index permutation).
fn sort_projects_by_name(input: Vec<Project>) -> (r: Vec<Project>)
    ensures
        r@.len() == input@.len(),
        sorted_by_name(r@),
        exists|perm: Seq<int>| #[trigger] permutation_of(perm, r@, input@),
{
    let ghost orig = input@;
    let n: usize = input.len();
    let mut rest = input;
    let mut out: Vec<Project> = Vec::new();
    let ghost mut perm: Seq<int> = Seq::empty();
    while rest.len() > 0
        invariant
            n == orig.len(),
            rest@ == orig.take(rest@.len() as int),
            out@.len() + rest@.len() == n,
            perm.len() == out@.len(),
            forall|k: int|
                0 <= k < perm.len() ==> rest@.len() <= #[trigger] perm[k] < n && out@[k]
                    == orig[perm[k]],
            forall|a: int, b: int|
                #![trigger perm[a], perm[b]]
                0 <= a < b < perm.len() ==> perm[a] != perm[b],
            sorted_by_name(out@),
        decreases rest@.len(),
    {
        let ghost j = rest@.len() - 1;
        let p = rest.pop().unwrap();
        proof {
            assert(rest@ =~= orig.take(rest@.len() as int));
            assert(p == orig[j]);
        }
        let pos = project_insert_pos(&out, &p.name);
        let ghost pv = p;
        let ghost oldout = out@;
        let ghost oldperm = perm;
        out.insert(pos, p);
        proof {
            perm = oldperm.insert(pos as int, j);
            oldout.insert_ensures(pos as int, pv);
            oldperm.insert_ensures(pos as int, j);
            let pp = pos as int;
            assert forall|k: int|
                0 <= k < perm.len() implies rest@.len() <= #[trigger] perm[k] < n && out@[k]
                == orig[perm[k]] by {
                if k < pp {
                    assert(perm[k] == oldperm[k]);
                    assert(out@[k] == oldout[k]);
                } else if k == pp {
                    assert(perm[k] == j);
                    assert(out@[k] == pv);
                } else {
                    assert(perm[k] == oldperm[k - 1]);
                    assert(out@[k] == oldout[k - 1]);
                }
            }
            assert forall|a: int, b: int|
                #![trigger perm[a], perm[b]]
                0 <= a < b < perm.len() implies perm[a] != perm[b] by {
                let a2 = if a < pp {
                    a
                } else {
                    a - 1
                };
                let b2 = if b < pp {
                    b
                } else {
                    b - 1
                };
                if a == pp {
                    assert(perm[b] == oldperm[b2] && oldperm[b2] >= j + 1);
                } else if b == pp {
                    assert(perm[a] == oldperm[a2] && oldperm[a2] >= j + 1);
                } else {
                    assert(perm[a] == oldperm[a2]);
                    assert(perm[b] == oldperm[b2]);
                }
            }
            assert forall|x: int, y: int|
                #![trigger out@[x], out@[y]]
                0 <= x < y < out@.len() implies lex_le(out@[x].name@, out@[y].name@) by {
                if y < pp {
                    assert(out@[x] == oldout[x]);
                    assert(out@[y] == oldout[y]);
                } else if y == pp {
                    assert(out@[x] == oldout[x]);
                    assert(lex_le(oldout[x].name@, pv.name@));
                } else if x < pp {
                    assert(out@[x] == oldout[x]);
                    assert(out@[y] == oldout[y - 1]);
                    if y - 1 == x {
                        assert(lex_le(oldout[x].name@, pv.name@));
                        assert(pp < oldout.len());
                        lemma_lex_le_total(oldout[pp].name@, pv.name@);
                        lemma_lex_le_trans(oldout[x].name@, pv.name@, oldout[pp].name@);
                    }
                } else if x == pp {
                    assert(out@[y] == oldout[y - 1]);
                    assert(pp < oldout.len());
                    lemma_lex_le_total(oldout[pp].name@, pv.name@);
                    if y - 1 > pp {
                        lemma_lex_le_trans(pv.name@, oldout[pp].name@, oldout[y - 1].name@);
                    }
                } else {
                    assert(out@[x] == oldout[x - 1]);
                    assert(out@[y] == oldout[y - 1]);
                }
            }
        }
    }
    proof {
        assert(permutation_of(perm, out@, orig));
    }
    out
}

/// A query filtered on an exact path alone returns a row precisely when
/// some row holds that path: the filter composer answers existence checks
/// the same way it answers browsing queries.
pub proof fn lemma_matching_rows_path_only(c: Catalog, rows: Seq<ProjectRow>, path: String)
    ensures
        c.matching_rows(rows, None, Some(path), None).len() > 0 <==> exists|i: int|
            0 <= i < rows.len() && (#[trigger] rows[i]).path@ == path@,
    decreases rows.len(),
{
    if rows.len() > 0 {
        lemma_matching_rows_path_only(c, rows.drop_last(), path);
        if c.row_matches(rows.last(), None, Some(path), None) {
            assert(rows[rows.len() - 1].path@ == path@);
        } else {
            if exists|i: int| 0 <= i < rows.len() && (#[trigger] rows[i]).path@ == path@ {
                let w = choose|w: int| 0 <= w < rows.len() && (#[trigger] rows[w]).path@ == path@;
                assert(w < rows.len() - 1);
                assert(rows.drop_last()[w].path@ == path@);
            }
            if exists|i: int|
                0 <= i < rows.drop_last().len() && (#[trigger] rows.drop_last()[i]).path@
                    == path@ {
                let w = choose|w: int|
                    0 <= w < rows.drop_last().len() && (#[trigger] rows.drop_last()[w]).path@
                        == path@;
                assert(rows[w].path@ == path@);
            }
        }
    }
}

/// A project id that resolves keeps resolving in any catalog with the same
/// project table.
pub proof fn lemma_project_exists_transfer(a: Catalog, b: Catalog, id: i64)
    requires
        a.project_exists(id),
        b.projects@ == a.projects@,
    ensures
        b.project_exists(id),
{
    let w = choose|w: int| 0 <= w < a.projects@.len() && (#[trigger] a.projects@[w]).id == id;
    assert(b.projects@[w].id == id);
}

/// Well-formedness of the untouched tables carries over to a catalog that
/// changed only its file rows and its id counter.
proof fn lemma_wf_outside_files(pre: Catalog, post: Catalog)
    requires
        pre.wf(),
        post.projects@ == pre.projects@,
        post.tags@ == pre.tags@,
        post.links@ == pre.links@,
        post.sources@ == pre.sources@,
        pre.next_id <= post.next_id,
    ensures
        post.projects_wf(),
        post.tags_wf(),
        post.links_wf(),
        post.sources_wf(),
        1 <= post.next_id,
        forall|i: int|
            0 <= i < post.projects@.len() ==> 0 < (#[trigger] post.projects@[i]).id
                < post.next_id,
        forall|i: int|
            0 <= i < post.tags@.len() ==> 0 < (#[trigger] post.tags@[i]).id < post.next_id,
        forall|i: int|
            0 <= i < post.sources@.len() ==> 0 < (#[trigger] post.sources@[i]).id < post.next_id,
{
    assert forall|i: int|
        0 <= i < post.links@.len() implies post.project_exists(
        (#[trigger] post.links@[i]).project_id,
    ) && post.tag_exists(post.links@[i].tag_id) by {
        assert(pre.project_exists(pre.links@[i].project_id));
        let wp = choose|wp: int|
            0 <= wp < pre.projects@.len() && (#[trigger] pre.projects@[wp]).id
                == post.links@[i].project_id;
        assert(post.projects@[wp].id == post.links@[i].project_id);
        assert(pre.tag_exists(pre.links@[i].tag_id));
        let wt = choose|wt: int|
            0 <= wt < pre.tags@.len() && (#[trigger] pre.tags@[wt]).id == post.links@[i].tag_id;
        assert(post.tags@[wt].id == post.links@[i].tag_id);
    }
    assert forall|i: int|
        0 <= i < post.sources@.len() implies post.project_exists(
        (#[trigger] post.sources@[i]).project_id,
    ) by {
        assert(pre.project_exists(pre.sources@[i].project_id));
        let wp = choose|wp: int|
            0 <= wp < pre.projects@.len() && (#[trigger] pre.projects@[wp]).id
                == post.sources@[i].project_id;
        assert(post.projects@[wp].id == post.sources@[i].project_id);
    }
}

/// Well-formedness of the untouched tables carries over to a catalog that
/// changed only its association rows.
proof fn lemma_wf_outside_links(pre: Catalog, post: Catalog)
    requires
        pre.wf(),
        post.projects@ == pre.projects@,
        post.files@ == pre.files@,
        post.tags@ == pre.tags@,
        post.sources@ == pre.sources@,
        pre.next_id <= post.next_id,
    ensures
        post.projects_wf(),
        post.files_wf(),
        post.tags_wf(),
        post.sources_wf(),
        1 <= post.next_id,
        forall|i: int|
            0 <= i < post.projects@.len() ==> 0 < (#[trigger] post.projects@[i]).id
                < post.next_id,
        forall|i: int|
            0 <= i < post.files@.len() ==> 0 < (#[trigger] post.files@[i]).id < post.next_id,
        forall|i: int|
            0 <= i < post.tags@.len() ==> 0 < (#[trigger] post.tags@[i]).id < post.next_id,
        forall|i: int|
            0 <= i < post.sources@.len() ==> 0 < (#[trigger] post.sources@[i]).id < post.next_id,
{
    assert forall|i: int|
        0 <= i < post.files@.len() implies post.project_exists(
        (#[trigger] post.files@[i]).project_id,
    ) by {
        assert(pre.project_exists(pre.files@[i].project_id));
        let wp = choose|wp: int|
            0 <= wp < pre.projects@.len() && (#[trigger] pre.projects@[wp]).id
                == post.files@[i].project_id;
        assert(post.projects@[wp].id == post.files@[i].project_id);
    }
    assert forall|i: int|
        0 <= i < post.sources@.len() implies post.project_exists(
        (#[trigger] post.sources@[i]).project_id,
    ) by {
        assert(pre.project_exists(pre.sources@[i].project_id));
        let wp = choose|wp: int|
            0 <= wp < pre.projects@.len() && (#[trigger] pre.projects@[wp]).id
                == post.sources@[i].project_id;
        assert(post.projects@[wp].id == post.sources@[i].project_id);
    }
}

/// Well-formedness of the untouched tables carries over to a catalog that
/// changed only its tag and association rows and its id counter.
proof fn lemma_wf_outside_tags(pre: Catalog, post: Catalog)
    requires
        pre.wf(),
        post.projects@ == pre.projects@,
        post.files@ == pre.files@,
        post.sources@ == pre.sources@,
        pre.next_id <= post.next_id,
    ensures
        post.projects_wf(),
        post.files_wf(),
        post.sources_wf(),
        1 <= post.next_id,
        forall|i: int|
            0 <= i < post.projects@.len() ==> 0 < (#[trigger] post.projects@[i]).id
                < post.next_id,
        forall|i: int|
            0 <= i < post.files@.len() ==> 0 < (#[trigger] post.files@[i]).id < post.next_id,
        forall|i: int|
            0 <= i < post.sources@.len() ==> 0 < (#[trigger] post.sources@[i]).id < post.next_id,
{
    assert forall|i: int|
        0 <= i < post.files@.len() implies post.project_exists(
        (#[trigger] post.files@[i]).project_id,
    ) by {
        assert(pre.project_exists(pre.files@[i].project_id));
        let wp = choose|wp: int|
            0 <= wp < pre.projects@.len() && (#[trigger] pre.projects@[wp]).id
                == post.files@[i].project_id;
        assert(post.projects@[wp].id == post.files@[i].project_id);
    }
    assert forall|i: int|
        0 <= i < post.sources@.len() implies post.project_exists(
        (#[trigger] post.sources@[i]).project_id,
    ) by {
        assert(pre.project_exists(pre.sources@[i].project_id));
        let wp = choose|wp: int|
            0 <= wp < pre.projects@.len() && (#[trigger] pre.projects@[wp]).id
                == post.sources@[i].project_id;
        assert(post.projects@[wp].id == post.sources@[i].project_id);
    }
}

/// An element of a sequence is still an element after a push.
proof fn lemma_push_contains<A>(s: Seq<A>, x: A, y: A)
    requires
        s.contains(y),
    ensures
        s.push(x).contains(y),
{
    let w = choose|w: int| 0 <= w < s.len() && s[w] == y;
    assert(s.push(x)[w] == y);
}

/// A link with this project and tag is present.
pub open spec fn link_present(links: Seq<TagLink>, project_id: i64, tag_id: i64) -> bool {
    exists|i: int|
        0 <= i < links.len() && (#[trigger] links[i]).project_id == project_id && links[i].tag_id
            == tag_id
}

/// The files that belong to the given project, in table order.
pub open spec fn files_of(files: Seq<ProjectFile>, project_id: i64) -> Seq<ProjectFile>
    decreases files.len(),
{
    if files.len() == 0 {
        Seq::empty()
    } else {
        let rest = files_of(files.drop_last(), project_id);
        if files.last().project_id == project_id {
            rest.push(files.last())
        } else {
            rest
        }
    }
}

/// The tags associated with the given project, in table order.
pub open spec fn tags_of(tags: Seq<ProjectTag>, links: Seq<TagLink>, project_id: i64) -> Seq<
    ProjectTag,
>
    decreases tags.len(),
{
    if tags.len() == 0 {
        Seq::empty()
    } else {
        let rest = tags_of(tags.drop_last(), links, project_id);
        if link_present(links, project_id, tags.last().id) {
            rest.push(tags.last())
        } else {
            rest
        }
    }
}

/// The sources that belong to the given project, in table order.
pub open spec fn sources_of(sources: Seq<ProjectSource>, project_id: i64) -> Seq<ProjectSource>
    decreases sources.len(),
{
    if sources.len() == 0 {
        Seq::empty()
    } else {
        let rest = sources_of(sources.drop_last(), project_id);
        if sources.last().project_id == project_id {
            rest.push(sources.last())
        } else {
            rest
        }
    }
}

impl Catalog {
    /// A project row with this id exists.
    pub open spec fn project_exists(self, id: i64) -> bool {
        exists|i: int| 0 <= i < self.projects@.len() && (#[trigger] self.projects@[i]).id == id
    }

    /// A project row with this path exists.
    pub open spec fn has_project_path(self, path: Seq<char>) -> bool {
        exists|i: int| 0 <= i < self.projects@.len() && (#[trigger] self.projects@[i]).path@ == path
    }

    /// A file row with this id exists.
    pub open spec fn file_exists(self, id: i64) -> bool {
        exists|i: int| 0 <= i < self.files@.len() && (#[trigger] self.files@[i]).id == id
    }

    /// The given project has a file row with this path.
    pub open spec fn has_file_path(self, project_id: i64, path: Seq<char>) -> bool {
        rows_have_path(self.files@, project_id, path)
    }

    /// A tag row with this text exists.
    pub open spec fn has_tag_text(self, text: Seq<char>) -> bool {
        exists|i: int| 0 <= i < self.tags@.len() && (#[trigger] self.tags@[i]).tag@ == text
    }

    /// A tag row with this id exists.
    pub open spec fn tag_exists(self, id: i64) -> bool {
        exists|i: int| 0 <= i < self.tags@.len() && (#[trigger] self.tags@[i]).id == id
    }

    /// The given project is associated with the given tag.
    pub open spec fn has_link(self, project_id: i64, tag_id: i64) -> bool {
        link_present(self.links@, project_id, tag_id)
    }

    /// Project rows have pairwise distinct ids and pairwise distinct paths:
    /// a path uniquely identifies a project.
    pub open spec fn projects_wf(self) -> bool {
        forall|i: int, j: int|
            #![trigger self.projects@[i], self.projects@[j]]
            0 <= i < j < self.projects@.len() ==> self.projects@[i].id != self.projects@[j].id
                && self.projects@[i].path@ != self.projects@[j].path@
    }

    /// File rows have pairwise distinct ids; within one project, paths are
    /// unique and at most one file is flagged as the default; every file
    /// belongs to an existing project.
    pub open spec fn files_wf(self) -> bool {
        &&& forall|i: int, j: int|
            #![trigger self.files@[i], self.files@[j]]
            0 <= i < j < self.files@.len() ==> {
                &&& self.files@[i].id != self.files@[j].id
                &&& (self.files@[i].project_id == self.files@[j].project_id
                    ==> self.files@[i].path@ != self.files@[j].path@)
                &&& (self.files@[i].project_id == self.files@[j].project_id ==> !(
                self.files@[i].default && self.files@[j].default))
            }
        &&& forall|i: int|
            0 <= i < self.files@.len() ==> self.project_exists(
                (#[trigger] self.files@[i]).project_id,
            )
    }

    /// Tag rows have pairwise distinct ids and pairwise distinct texts.
    pub open spec fn tags_wf(self) -> bool {
        forall|i: int, j: int|
            #![trigger self.tags@[i], self.tags@[j]]
            0 <= i < j < self.tags@.len() ==> self.tags@[i].id != self.tags@[j].id
                && self.tags@[i].tag@ != self.tags@[j].tag@
    }

    /// Association rows are pairwise distinct pairs, and both ends exist.
    pub open spec fn links_wf(self) -> bool {
        &&& forall|i: int, j: int|
            #![trigger self.links@[i], self.links@[j]]
            0 <= i < j < self.links@.len() ==> self.links@[i] != self.links@[j]
        &&& forall|i: int|
            0 <= i < self.links@.len() ==> self.project_exists(
                (#[trigger] self.links@[i]).project_id,
            ) && self.tag_exists(self.links@[i].tag_id)
    }

    /// Source rows have pairwise distinct ids and belong to existing
    /// projects.
    pub open spec fn sources_wf(self) -> bool {
        &&& forall|i: int, j: int|
            #![trigger self.sources@[i], self.sources@[j]]
            0 <= i < j < self.sources@.len() ==> self.sources@[i].id != self.sources@[j].id
        &&& forall|i: int|
            0 <= i < self.sources@.len() ==> self.project_exists(
                (#[trigger] self.sources@[i]).project_id,
            )
    }

    /// Every assigned row id is positive and below `next_id`, so `next_id`
    /// is always fresh.
    pub open spec fn ids_wf(self) -> bool {
        &&& 1 <= self.next_id
        &&& forall|i: int|
            0 <= i < self.projects@.len() ==> 0 < (#[trigger] self.projects@[i]).id < self.next_id
        &&& forall|i: int|
            0 <= i < self.files@.len() ==> 0 < (#[trigger] self.files@[i]).id < self.next_id
        &&& forall|i: int|
            0 <= i < self.tags@.len() ==> 0 < (#[trigger] self.tags@[i]).id < self.next_id
        &&& forall|i: int|
            0 <= i < self.sources@.len() ==> 0 < (#[trigger] self.sources@[i]).id < self.next_id
    }

    /// The catalog's well-formedness: all table rules hold together.
    pub open spec fn wf(self) -> bool {
        &&& self.projects_wf()
        &&& self.files_wf()
        &&& self.tags_wf()
        &&& self.links_wf()
        &&& self.sources_wf()
        &&& self.ids_wf()
    }

    /// An empty catalog.
    pub fn new() -> (r: Catalog)
        ensures
            r.wf(),
            r.projects@.len() == 0,
            r.files@.len() == 0,
            r.tags@.len() == 0,
            r.links@.len() == 0,
            r.sources@.len() == 0,
            r.next_id == 1,
    {
        Catalog {
            projects: Vec::new(),
            files: Vec::new(),
            tags: Vec::new(),
            links: Vec::new(),
            sources: Vec::new(),
            next_id: 1,
        }
    }

    /// Index of the project row with the given id.
    pub(crate) fn find_project_by_id(&self, id: i64) -> (r: Option<usize>)
        ensures
            match r {
                Some(i) => i < self.projects@.len() && self.projects@[i as int].id == id,
                None => !self.project_exists(id),
            },
    {
        let n: usize = self.projects.len();
        let mut i: usize = 0;
        while i < n
            invariant
                n == self.projects@.len(),
                i <= n,
                forall|j: int| 0 <= j < i ==> (#[trigger] self.projects@[j]).id != id,
            decreases n - i,
        {
            if self.projects[i].id == id {
                return Some(i);
            }
            i += 1;
        }
        None
    }

    /// Index of the project row with the given path.
    pub(crate) fn find_project_by_path(&self, path: &String) -> (r: Option<usize>)
        ensures
            match r {
                Some(i) => i < self.projects@.len() && self.projects@[i as int].path@ == path@,
                None => !self.has_project_path(path@),
            },
    {
        let n: usize = self.projects.len();
        let mut i: usize = 0;
        while i < n
            invariant
                n == self.projects@.len(),
                i <= n,
                forall|j: int| 0 <= j < i ==> (#[trigger] self.projects@[j]).path@ != path@,
            decreases n - i,
        {
            if self.projects[i].path.eq(path) {
                return Some(i);
            }
            i += 1;
        }
        None
    }

    /// The project with the given id is associated with the given tag.
    pub fn has_link_exec(&self, project_id: i64, tag_id: i64) -> (r: bool)
        ensures
            r == self.has_link(project_id, tag_id),
    {
        let n: usize = self.links.len();
        let mut i: usize = 0;
        while i < n
            invariant
                n == self.links@.len(),
                i <= n,
                forall|j: int|
                    0 <= j < i ==> !((#[trigger] self.links@[j]).project_id == project_id
                        && self.links@[j].tag_id == tag_id),
            decreases n - i,
        {
            if self.links[i].project_id == project_id && self.links[i].tag_id == tag_id {
                return true;
            }
            i += 1;
        }
        false
    }

    /// Loads the project stored at row index `idx`: its row attributes plus
    /// its files (ordered by path), tags and sources gathered from the
    /// other tables.
    fn hydrate(&self, idx: usize) -> (p: Project)
        requires
            idx < self.projects@.len(),
        ensures
            p.id == self.projects@[idx as int].id,
            p.name@ == self.projects@[idx as int].name@,
            p.path@ == self.projects@[idx as int].path@,
            p.notes@ == self.projects@[idx as int].notes@,
            p.files@.to_multiset() == files_of(self.files@, p.id).to_multiset(),
            sorted_by_path(p.files@),
            p.tags@ == tags_of(self.tags@, self.links@, p.id),
            p.sources@ == sources_of(self.sources@, p.id),
    {
        let row = &self.projects[idx];
        let pid = row.id;
        let mut files: Vec<ProjectFile> = Vec::new();
        let nf: usize = self.files.len();
        let mut i: usize = 0;
        while i < nf
            invariant
                nf == self.files@.len(),
                i <= nf,
                files@ == files_of(self.files@.take(i as int), pid),
            decreases nf - i,
        {
            proof {
                assert(self.files@.take(i + 1).drop_last() =~= self.files@.take(i as int));
                assert(self.files@.take(i + 1).last() == self.files@[i as int]);
            }
            if self.files[i].project_id == pid {
                files.push(self.files[i].clone());
            }
            i += 1;
        }
        let mut tags: Vec<ProjectTag> = Vec::new();
        let nt: usize = self.tags.len();
        let mut k: usize = 0;
        while k < nt
            invariant
                nt == self.tags@.len(),
                k <= nt,
                tags@ == tags_of(self.tags@.take(k as int), self.links@, pid),
            decreases nt - k,
        {
            proof {
                assert(self.tags@.take(k + 1).drop_last() =~= self.tags@.take(k as int));
                assert(self.tags@.take(k + 1).last() == self.tags@[k as int]);
            }
            if self.has_link_exec(pid, self.tags[k].id) {
                tags.push(self.tags[k].clone());
            }
            k += 1;
        }
        let mut sources: Vec<ProjectSource> = Vec::new();
        let ns: usize = self.sources.len();
        let mut m: usize = 0;
        while m < ns
            invariant
                ns == self.sources@.len(),
                m <= ns,
                sources@ == sources_of(self.sources@.take(m as int), pid),
            decreases ns - m,
        {
            proof {
                assert(self.sources@.take(m + 1).drop_last() =~= self.sources@.take(m as int));
                assert(self.sources@.take(m + 1).last() == self.sources@[m as int]);
            }
            if self.sources[m].project_id == pid {
                sources.push(self.sources[m].clone());
            }
            m += 1;
        }
        proof {
            assert(self.files@.take(nf as int) =~= self.files@);
            assert(self.tags@.take(nt as int) =~= self.tags@);
            assert(self.sources@.take(ns as int) =~= self.sources@);
        }
        let files = sort_files_by_path(files);
        Project {
            id: row.id,
            name: row.name.clone(),
            path: row.path.clone(),
            notes: row.notes.clone(),
            files,
            tags,
            sources,
        }
    }

    /// The row satisfies every filter that is given: a substring match on
    /// the name, an exact match on the path, and association with every tag
    /// in the set (intersection, not union).
    pub open spec fn row_matches(
        self,
        row: ProjectRow,
        name: Option<String>,
        path: Option<String>,
        tags: Option<Vec<ProjectTag>>,
    ) -> bool {
        &&& (name matches Some(n) ==> contains_seq(row.name@, n@))
        &&& (path matches Some(p) ==> row.path@ == p@)
        &&& (tags matches Some(ts) ==> forall|k: int|
            0 <= k < ts@.len() ==> self.has_link(row.id, (#[trigger] ts@[k]).id))
    }

    /// The rows among `rows` that satisfy the given filters, in order.
    pub open spec fn matching_rows(
        self,
        rows: Seq<ProjectRow>,
        name: Option<String>,
        path: Option<String>,
        tags: Option<Vec<ProjectTag>>,
    ) -> Seq<ProjectRow>
        decreases rows.len(),
    {
        if rows.len() == 0 {
            Seq::empty()
        } else {
            let rest = self.matching_rows(rows.drop_last(), name, path, tags);
            if self.row_matches(rows.last(), name, path, tags) {
                rest.push(rows.last())
            } else {
                rest
            }
        }
    }

    /// `p` is the aggregate loaded from the stored row `row`: the row's
    /// scalar attributes plus the row's files (ordered by path), tags and
    /// sources.
    pub open spec fn hydrated_from(self, p: Project, row: ProjectRow) -> bool {
        &&& p.id == row.id
        &&& p.name@ == row.name@
        &&& p.path@ == row.path@
        &&& p.notes@ == row.notes@
        &&& p.files@.to_multiset() == files_of(self.files@, row.id).to_multiset()
        &&& sorted_by_path(p.files@)
        &&& p.tags@ == tags_of(self.tags@, self.links@, row.id)
        &&& p.sources@ == sources_of(self.sources@, row.id)
    }

    /// `p` is the aggregate loaded for the project id: the id resolves to a
    /// row whose scalar attributes `p` carries, and `p` holds the project's
    /// files, tags and sources gathered from the tables.
    pub open spec fn loaded_project(self, id: i64, p: Project) -> bool {
        &&& self.project_exists(id)
        &&& p.id == id
        &&& exists|i: int|
            0 <= i < self.projects@.len() && (#[trigger] self.projects@[i]).id == id && p.name@
                == self.projects@[i].name@ && p.path@ == self.projects@[i].path@ && p.notes@
                == self.projects@[i].notes@
        &&& p.files@.to_multiset() == files_of(self.files@, id).to_multiset()
        &&& sorted_by_path(p.files@)
        &&& p.tags@ == tags_of(self.tags@, self.links@, id)
        &&& p.sources@ == sources_of(self.sources@, id)
    }

    /// `ps` is, element by element, the loaded form of the rows `rows`.
    pub open spec fn hydrates(self, ps: Seq<Project>, rows: Seq<ProjectRow>) -> bool {
        &&& ps.len() == rows.len()
        &&& forall|i: int| 0 <= i < rows.len() ==> self.hydrated_from(#[trigger] ps[i], rows[i])
    }

    /// `ps` lists, in ascending name order, the loaded form of exactly the
    /// rows `rows`: some index permutation aligns each project with its
    /// row, and no row is used twice.
    pub open spec fn sorted_hydration_of(self, ps: Seq<Project>, rows: Seq<ProjectRow>) -> bool {
        &&& ps.len() == rows.len()
        &&& sorted_by_name(ps)
        &&& exists|perm: Seq<int>|
            #![trigger perm.len()]
            {
                &&& perm.len() == ps.len()
                &&& forall|k: int|
                    0 <= k < perm.len() ==> 0 <= #[trigger] perm[k] < rows.len()
                        && self.hydrated_from(ps[k], rows[perm[k]])
                &&& forall|a: int, b: int|
                    #![trigger perm[a], perm[b]]
                    0 <= a < b < perm.len() ==> perm[a] != perm[b]
            }
    }

    /// Another project row (a different id) already holds this path.
    pub open spec fn path_taken_by_other(self, path: Seq<char>, id: i64) -> bool {
        exists|i: int|
            0 <= i < self.projects@.len() && (#[trigger] self.projects@[i]).path@ == path
                && self.projects@[i].id != id
    }

    /// The row at `idx` satisfies every given filter.
    fn row_matches_exec(
        &self,
        idx: usize,
        name: &Option<String>,
        path: &Option<String>,
        tags: &Option<Vec<ProjectTag>>,
    ) -> (r: bool)
        requires
            idx < self.projects@.len(),
        ensures
            r == self.row_matches(self.projects@[idx as int], *name, *path, *tags),
    {
        let row = &self.projects[idx];
        let name_ok = match name {
            Some(n) => contains_str(row.name.as_str(), n.as_str()),
            None => true,
        };
        let path_ok = match path {
            Some(p) => row.path.eq(p),
            None => true,
        };
        let tags_ok = match tags {
            Some(ts) => self.all_tags_linked(row.id, ts),
            None => true,
        };
        name_ok && path_ok && tags_ok
    }

    /// The project is associated with every tag in `ts`.
    fn all_tags_linked(&self, project_id: i64, ts: &Vec<ProjectTag>) -> (r: bool)
        ensures
            r == forall|j: int| 0 <= j < ts@.len() ==> self.has_link(project_id, (#[trigger] ts@[j]).id),
    {
        let nt: usize = ts.len();
        let mut k: usize = 0;
        while k < nt
            invariant
                nt == ts@.len(),
                k <= nt,
                forall|j: int| 0 <= j < k ==> self.has_link(project_id, (#[trigger] ts@[j]).id),
            decreases nt - k,
        {
            if !self.has_link_exec(project_id, ts[k].id) {
                return false;
            }
            k += 1;
        }
        true
    }

    /// The projects that satisfy every given filter: an optional substring
    /// match on the name, an optional exact match on the path, and an
    /// optional tag set of which every tag must be associated (tag
    /// intersection). Each result is loaded with its files, tags and
    /// sources; the results are ordered by name, ascending.
    pub fn get_filtered_projects(
        &self,
        name: Option<String>,
        path: Option<String>,
        tags: Option<Vec<ProjectTag>>,
    ) -> (r: Vec<Project>)
        ensures
            r@.len() == self.matching_rows(self.projects@, name, path, tags).len(),
            self.sorted_hydration_of(r@, self.matching_rows(self.projects@, name, path, tags)),
    {
        let mut out: Vec<Project> = Vec::new();
        let n: usize = self.projects.len();
        let mut i: usize = 0;
        while i < n
            invariant
                n == self.projects@.len(),
                i <= n,
                self.hydrates(out@, self.matching_rows(self.projects@.take(i as int), name, path, tags)),
            decreases n - i,
        {
            proof {
                assert(self.projects@.take(i + 1).drop_last() =~= self.projects@.take(i as int));
                assert(self.projects@.take(i + 1).last() == self.projects@[i as int]);
            }
            if self.row_matches_exec(i, &name, &path, &tags) {
                let p = self.hydrate(i);
                out.push(p);
            }
            i += 1;
        }
        proof {
            assert(self.projects@.take(n as int) =~= self.projects@);
        }
        let ghost unsorted = out@;
        let ghost mr = self.matching_rows(self.projects@, name, path, tags);
        let r = sort_projects_by_name(out);
        proof {
            let perm = choose|perm: Seq<int>| #[trigger] permutation_of(perm, r@, unsorted);
            assert forall|k: int|
                0 <= k < perm.len() implies 0 <= #[trigger] perm[k] < mr.len()
                && self.hydrated_from(r@[k], mr[perm[k]]) by {
                assert(r@[k] == unsorted[perm[k]]);
                assert(self.hydrated_from(unsorted[perm[k]], mr[perm[k]]));
            }
            assert(perm.len() == r@.len());
            assert(self.sorted_hydration_of(r@, mr));
        }
        r
    }

    /// Persists the scalar attributes (name, path, notes) of an existing
    /// project and returns the reloaded aggregate. Fails with `NotFound`
    /// when no row has the project's id, and with `Duplicate` when another
    /// project already holds the new path.
    pub fn update_project(&mut self, project: &Project) -> (r: Result<Project, StoreError>)
        requires
            old(self).wf(),
        ensures
            final(self).wf(),
            final(self).files@ == old(self).files@,
            final(self).tags@ == old(self).tags@,
            final(self).links@ == old(self).links@,
            final(self).sources@ == old(self).sources@,
            final(self).next_id == old(self).next_id,
            r is Ok <==> old(self).project_exists(project.id) && !old(self).path_taken_by_other(
                project.path@,
                project.id,
            ),
            match r {
                Ok(p) => {
                    &&& exists|i: int|
                        0 <= i < old(self).projects@.len() && (#[trigger] old(
                            self,
                        ).projects@[i]).id == project.id && final(self).projects@ == old(
                            self,
                        ).projects@.update(
                            i,
                            ProjectRow {
                                id: project.id,
                                name: project.name,
                                path: project.path,
                                notes: project.notes,
                            },
                        )
                    &&& final(self).hydrated_from(
                        p,
                        ProjectRow {
                            id: project.id,
                            name: project.name,
                            path: project.path,
                            notes: project.notes,
                        },
                    )
                },
                Err(e) => {
                    &&& *final(self) == *old(self)
                    &&& (e is NotFound <==> !old(self).project_exists(project.id))
                    &&& (e is NotFound || e is Duplicate)
                },
            },
    {
        let idx = match self.find_project_by_id(project.id) {
            Some(i) => i,
            None => {
                return Err(StoreError::NotFound);
            },
        };
        match self.find_project_by_path(&project.path) {
            Some(j) => {
                if self.projects[j].id != project.id {
                    return Err(StoreError::Duplicate);
                }
                proof {
                    assert forall|w: int|
                        0 <= w < self.projects@.len() && (#[trigger] self.projects@[w]).path@
                            == project.path@ implies self.projects@[w].id == project.id by {
                        if w != j {
                            assert(self.projects@[w].path@ != self.projects@[j as int].path@);
                        }
                    }
                }
            },
            None => {},
        }
        let row = ProjectRow {
            id: project.id,
            name: project.name.clone(),
            path: project.path.clone(),
            notes: project.notes.clone(),
        };
        self.projects.set(idx, row);
        proof {
            let oldp = old(self).projects@;
            let ii = idx as int;
            assert forall|a: int, b: int|
                #![trigger self.projects@[a], self.projects@[b]]
                0 <= a < b < self.projects@.len() implies self.projects@[a].id
                != self.projects@[b].id && self.projects@[a].path@ != self.projects@[b].path@ by {
                if a != ii && b != ii {
                    assert(self.projects@[a] == oldp[a]);
                    assert(self.projects@[b] == oldp[b]);
                } else {
                    let other = if a == ii {
                        b
                    } else {
                        a
                    };
                    assert(self.projects@[other] == oldp[other]);
                    assert(oldp[other].id != oldp[ii].id);
                    assert(!old(self).path_taken_by_other(project.path@, project.id));
                    if oldp[other].path@ == project.path@ {
                        assert(old(self).projects@[other].path@ == project.path@);
                    }
                }
            }
            assert forall|i: int|
                0 <= i < self.files@.len() implies self.project_exists(
                (#[trigger] self.files@[i]).project_id,
            ) by {
                assert(old(self).project_exists(old(self).files@[i].project_id));
                let w = choose|w: int|
                    0 <= w < oldp.len() && (#[trigger] oldp[w]).id == self.files@[i].project_id;
                assert(self.projects@[w].id == oldp[w].id);
            }
            assert forall|i: int|
                0 <= i < self.links@.len() implies self.project_exists(
                (#[trigger] self.links@[i]).project_id,
            ) && self.tag_exists(self.links@[i].tag_id) by {
                assert(old(self).project_exists(old(self).links@[i].project_id));
                let w = choose|w: int|
                    0 <= w < oldp.len() && (#[trigger] oldp[w]).id == self.links@[i].project_id;
                assert(self.projects@[w].id == oldp[w].id);
                assert(old(self).tag_exists(old(self).links@[i].tag_id));
                let w2 = choose|w2: int|
                    0 <= w2 < old(self).tags@.len() && (#[trigger] old(self).tags@[w2]).id
                        == self.links@[i].tag_id;
                assert(self.tags@[w2].id == self.links@[i].tag_id);
            }
            assert forall|i: int|
                0 <= i < self.sources@.len() implies self.project_exists(
                (#[trigger] self.sources@[i]).project_id,
            ) by {
                assert(old(self).project_exists(old(self).sources@[i].project_id));
                let w = choose|w: int|
                    0 <= w < oldp.len() && (#[trigger] oldp[w]).id == self.sources@[i].project_id;
                assert(self.projects@[w].id == oldp[w].id);
            }
        }
        Ok(self.hydrate(idx))
    }

    /// Creates a project row from the scalar attributes of `project` (its
    /// id and child collections are ignored) and returns the freshly loaded
    /// aggregate with empty child collections. A second project with an
    /// already-stored path is refused as a `Duplicate`.
    pub fn create_project(&mut self, project: &Project) -> (r: Result<Project, StoreError>)
        requires
            old(self).wf(),
        ensures
            final(self).wf(),
            r is Ok <==> !old(self).has_project_path(project.path@) && old(self).next_id
                < i64::MAX,
            match r {
                Ok(p) => {
                    &&& final(self).projects@ == old(self).projects@.push(
                        ProjectRow {
                            id: old(self).next_id,
                            name: project.name,
                            path: project.path,
                            notes: project.notes,
                        },
                    )
                    &&& final(self).files@ == old(self).files@
                    &&& final(self).tags@ == old(self).tags@
                    &&& final(self).links@ == old(self).links@
                    &&& final(self).sources@ == old(self).sources@
                    &&& final(self).next_id == old(self).next_id + 1
                    &&& p.id == old(self).next_id
                    &&& p.name@ == project.name@
                    &&& p.path@ == project.path@
                    &&& p.notes@ == project.notes@
                    &&& p.files@.len() == 0
                    &&& p.tags@.len() == 0
                    &&& p.sources@.len() == 0
                    &&& final(self).has_project_path(project.path@)
                },
                Err(e) => {
                    &&& *final(self) == *old(self)
                    &&& (e is Duplicate <==> old(self).has_project_path(project.path@))
                    &&& (e is Duplicate || e is IdSpace)
                },
            },
    {
        if self.find_project_by_path(&project.path).is_some() {
            return Err(StoreError::Duplicate);
        }
        if self.next_id == i64::MAX {
            return Err(StoreError::IdSpace);
        }
        let id = self.next_id;
        self.next_id = self.next_id + 1;
        let row = ProjectRow {
            id,
            name: project.name.clone(),
            path: project.path.clone(),
            notes: project.notes.clone(),
        };
        self.projects.push(row);
        proof {
            let oldp = old(self).projects@;
            let newi = oldp.len() as int;
            assert forall|i: int, j: int|
                #![trigger self.projects@[i], self.projects@[j]]
                0 <= i < j < self.projects@.len() implies self.projects@[i].id
                != self.projects@[j].id && self.projects@[i].path@ != self.projects@[j].path@ by {
                if j == newi {
                    assert(self.projects@[i] == oldp[i]);
                    assert(0 < oldp[i].id < old(self).next_id);
                    if oldp[i].path@ == project.path@ {
                        assert(old(self).has_project_path(project.path@));
                    }
                } else {
                    assert(self.projects@[i] == oldp[i]);
                    assert(self.projects@[j] == oldp[j]);
                }
            }
            assert forall|i: int|
                0 <= i < self.files@.len() implies self.project_exists(
                (#[trigger] self.files@[i]).project_id,
            ) by {
                assert(old(self).project_exists(old(self).files@[i].project_id));
                let w = choose|w: int|
                    0 <= w < oldp.len() && (#[trigger] oldp[w]).id == self.files@[i].project_id;
                assert(self.projects@[w] == oldp[w]);
            }
            assert forall|i: int|
                0 <= i < self.links@.len() implies self.project_exists(
                (#[trigger] self.links@[i]).project_id,
            ) && self.tag_exists(self.links@[i].tag_id) by {
                assert(old(self).project_exists(old(self).links@[i].project_id));
                let w = choose|w: int|
                    0 <= w < oldp.len() && (#[trigger] oldp[w]).id == self.links@[i].project_id;
                assert(self.projects@[w] == oldp[w]);
                assert(old(self).tag_exists(old(self).links@[i].tag_id));
                let w2 = choose|w2: int|
                    0 <= w2 < old(self).tags@.len() && (#[trigger] old(self).tags@[w2]).id
                        == self.links@[i].tag_id;
                assert(self.tags@[w2].id == self.links@[i].tag_id);
            }
            assert forall|i: int|
                0 <= i < self.sources@.len() implies self.project_exists(
                (#[trigger] self.sources@[i]).project_id,
            ) by {
                assert(old(self).project_exists(old(self).sources@[i].project_id));
                let w = choose|w: int|
                    0 <= w < oldp.len() && (#[trigger] oldp[w]).id == self.sources@[i].project_id;
                assert(self.projects@[w] == oldp[w]);
            }
            assert(self.projects@[newi].path@ == project.path@);
            assert(self.has_project_path(project.path@));
        }
        Ok(
            Project {
                id,
                name: project.name.clone(),
                path: project.path.clone(),
                notes: project.notes.clone(),
                files: Vec::new(),
                tags: Vec::new(),
                sources: Vec::new(),
            },
        )
    }

    /// The reconciliation primitive: makes the project's known-file set
    /// equal to the live path set. Paths that are live but unknown get a
    /// fresh row (no notes, not the default); rows whose path is no longer
    /// live are deleted; rows whose path is still live keep their identity,
    /// notes and default flag. The report lists exactly what was inserted
    /// and deleted; when the store already matched the filesystem it is
    /// empty and nothing changed.
    pub fn update_project_files(&mut self, project_id: i64, live: &Vec<String>) -> (r: Result<
        SyncReport,
        StoreError,
    >)
        requires
            old(self).wf(),
        ensures
            final(self).wf(),
            final(self).projects@ == old(self).projects@,
            final(self).tags@ == old(self).tags@,
            final(self).links@ == old(self).links@,
            final(self).sources@ == old(self).sources@,
            r is Err ==> *final(self) == *old(self),
            old(self).project_exists(project_id) && old(self).next_id + live@.len() <= i64::MAX
                ==> r is Ok,
            old(self).project_exists(project_id) && (forall|p: Seq<char>|
                #![trigger old(self).has_file_path(project_id, p)]
                #![trigger live_contains(live@, p)]
                old(self).has_file_path(project_id, p) <==> live_contains(live@, p)) ==> r is Ok,
            match r {
                Ok(rep) => old(self).project_exists(project_id) && files_synced(
                    *old(self),
                    *final(self),
                    project_id,
                    live@,
                    rep.added@,
                    rep.removed@,
                ),
                Err(e) => {
                    &&& (e is NotFound <==> !old(self).project_exists(project_id))
                    &&& (e is IdSpace ==> old(self).next_id + live@.len() > i64::MAX)
                    &&& (e is NotFound || e is IdSpace)
                },
            },
    {
        if self.find_project_by_id(project_id).is_none() {
            return Err(StoreError::NotFound);
        }
        let n: usize = self.files.len();
        let mut kept: Vec<ProjectFile> = Vec::new();
        let mut removed: Vec<ProjectFile> = Vec::new();
        let ghost mut origins: Seq<int> = Seq::empty();
        let mut i: usize = 0;
        while i < n
            invariant
                *self == *old(self),
                old(self).wf(),
                old(self).project_exists(project_id),
                n == self.files@.len(),
                i <= n,
                origins.len() == kept@.len(),
                forall|a: int| 0 <= a < origins.len() ==> 0 <= #[trigger] origins[a] < i,
                forall|a: int|
                    0 <= a < origins.len() ==> #[trigger] kept@[a] == self.files@[origins[a]],
                forall|a: int, b: int|
                    #![trigger origins[a], origins[b]]
                    0 <= a < b < origins.len() ==> origins[a] < origins[b],
                forall|a: int|
                    0 <= a < kept@.len() ==> ((#[trigger] kept@[a]).project_id != project_id
                        || live_contains(live@, kept@[a].path@)),
                forall|j: int|
                    0 <= j < i && ((#[trigger] self.files@[j]).project_id != project_id
                        || live_contains(live@, self.files@[j].path@)) ==> kept@.contains(
                        self.files@[j],
                    ),
                forall|a: int|
                    0 <= a < removed@.len() ==> self.files@.contains(#[trigger] removed@[a])
                        && removed@[a].project_id == project_id && !live_contains(
                        live@,
                        removed@[a].path@,
                    ),
                forall|j: int|
                    0 <= j < i && (#[trigger] self.files@[j]).project_id == project_id
                        && !live_contains(live@, self.files@[j].path@) ==> removed@.contains(
                        self.files@[j],
                    ),
            decreases n - i,
        {
            let f = self.files[i].clone();
            let keep_it = f.project_id != project_id || vec_contains_path(live, &f.path);
            proof {
                assert forall|j: int|
                    0 <= j < i && ((#[trigger] self.files@[j]).project_id != project_id
                        || live_contains(live@, self.files@[j].path@)) implies kept@.push(
                    f,
                ).contains(self.files@[j]) by {
                    lemma_push_contains(kept@, f, self.files@[j]);
                }
                assert forall|j: int|
                    0 <= j < i && (#[trigger] self.files@[j]).project_id == project_id
                        && !live_contains(live@, self.files@[j].path@) implies removed@.push(
                    f,
                ).contains(self.files@[j]) by {
                    lemma_push_contains(removed@, f, self.files@[j]);
                }
                assert(kept@.push(f)[kept@.len() as int] == f);
                assert(removed@.push(f)[removed@.len() as int] == f);
                assert(self.files@.contains(self.files@[i as int]));
            }
            if keep_it {
                kept.push(f);
                proof {
                    origins = origins.push(i as int);
                }
            } else {
                removed.push(f);
            }
            i += 1;
        }
        let kl: usize = kept.len();
        let ghost kls = kept@.len() as int;
        let mut added: Vec<ProjectFile> = Vec::new();
        let mut nid: i64 = self.next_id;
        let m: usize = live.len();
        let mut k: usize = 0;
        while k < m
            invariant
                *self == *old(self),
                old(self).wf(),
                old(self).project_exists(project_id),
                n == self.files@.len(),
                m == live@.len(),
                k <= m,
                kls == kl as int,
                kls <= kept@.len(),
                old(self).next_id <= nid,
                nid <= old(self).next_id + k,
                origins.len() == kls,
                forall|a: int| 0 <= a < kls ==> 0 <= #[trigger] origins[a] < n,
                forall|a: int| 0 <= a < kls ==> #[trigger] kept@[a] == self.files@[origins[a]],
                forall|a: int, b: int|
                    #![trigger origins[a], origins[b]]
                    0 <= a < b < kls ==> origins[a] < origins[b],
                forall|a: int|
                    0 <= a < kept@.len() ==> ((#[trigger] kept@[a]).project_id != project_id
                        || live_contains(live@, kept@[a].path@)),
                forall|j: int|
                    0 <= j < n && ((#[trigger] self.files@[j]).project_id != project_id
                        || live_contains(live@, self.files@[j].path@)) ==> kept@.contains(
                        self.files@[j],
                    ),
                forall|a: int|
                    0 <= a < removed@.len() ==> self.files@.contains(#[trigger] removed@[a])
                        && removed@[a].project_id == project_id && !live_contains(
                        live@,
                        removed@[a].path@,
                    ),
                forall|j: int|
                    0 <= j < n && (#[trigger] self.files@[j]).project_id == project_id
                        && !live_contains(live@, self.files@[j].path@) ==> removed@.contains(
                        self.files@[j],
                    ),
                forall|a: int|
                    kls <= a < kept@.len() ==> {
                        let q = #[trigger] kept@[a];
                        &&& q.project_id == project_id
                        &&& live_contains(live@, q.path@)
                        &&& q.notes is None
                        &&& !q.default
                        &&& old(self).next_id <= q.id < nid
                        &&& !old(self).has_file_path(project_id, q.path@)
                    },
                forall|a: int, b: int|
                    #![trigger kept@[a].id, kept@[b].id]
                    kls <= a < b < kept@.len() ==> kept@[a].id < kept@[b].id,
                forall|a: int, b: int|
                    #![trigger kept@[a].path@, kept@[b].path@]
                    0 <= a < b < kept@.len() && kls <= b ==> !(kept@[a].project_id
                        == kept@[b].project_id && kept@[a].path@ == kept@[b].path@),
                added@ == kept@.subrange(kls, kept@.len() as int),
                forall|j: int|
                    0 <= j < k ==> rows_have_path(kept@, project_id, (#[trigger] live@[j])@),
            decreases m - k,
        {
            let p = &live[k];
            if !rows_have_path_exec(&kept, project_id, p) {
                if nid == i64::MAX {
                    proof {
                        assert(old(self).next_id + live@.len() > i64::MAX);
                        if old(self).has_file_path(project_id, (live@[k as int])@) {
                            let w = choose|w: int|
                                0 <= w < self.files@.len() && (#[trigger] self.files@[w]).project_id
                                    == project_id && self.files@[w].path@ == (live@[k as int])@;
                            assert(live_contains(live@, self.files@[w].path@)) by {
                                assert((live@[k as int])@ == self.files@[w].path@);
                            }
                            assert(kept@.contains(self.files@[w]));
                            let w2 = choose|w2: int|
                                0 <= w2 < kept@.len() && kept@[w2] == self.files@[w];
                            assert(rows_have_path(kept@, project_id, (live@[k as int])@));
                        }
                        assert(live_contains(live@, (live@[k as int])@)) by {
                            assert((#[trigger] live@[k as int])@ == (live@[k as int])@);
                        }
                    }
                    return Err(StoreError::IdSpace);
                }
                let f = ProjectFile {
                    id: nid,
                    path: p.clone(),
                    notes: None,
                    project_id,
                    default: false,
                };
                nid = nid + 1;
                proof {
                    assert(live_contains(live@, f.path@)) by {
                        assert((live@[k as int])@ == f.path@);
                    }
                    if old(self).has_file_path(project_id, f.path@) {
                        let w = choose|w: int|
                            0 <= w < self.files@.len() && (#[trigger] self.files@[w]).project_id
                                == project_id && self.files@[w].path@ == f.path@;
                        assert(kept@.contains(self.files@[w]));
                        let w2 = choose|w2: int|
                            0 <= w2 < kept@.len() && kept@[w2] == self.files@[w];
                        assert(rows_have_path(kept@, project_id, f.path@));
                    }
                    assert forall|j: int|
                        0 <= j < n && ((#[trigger] self.files@[j]).project_id != project_id
                            || live_contains(live@, self.files@[j].path@)) implies kept@.push(
                        f,
                    ).contains(self.files@[j]) by {
                        lemma_push_contains(kept@, f, self.files@[j]);
                    }
                    assert(kept@.push(f)[kept@.len() as int] == f);
                    assert forall|j: int|
                        0 <= j < k implies rows_have_path(
                        kept@.push(f),
                        project_id,
                        (#[trigger] live@[j])@,
                    ) by {
                        let w = choose|w: int|
                            0 <= w < kept@.len() && (#[trigger] kept@[w]).project_id == project_id
                                && kept@[w].path@ == (live@[j])@;
                        assert(kept@.push(f)[w] == kept@[w]);
                    }
                    assert(added@.push(f) =~= kept@.push(f).subrange(
                        kls,
                        kept@.push(f).len() as int,
                    ));
                }
                added.push(f.clone());
                kept.push(f);
            } else {
                proof {
                    assert forall|j: int|
                        0 <= j <= k implies rows_have_path(
                        kept@,
                        project_id,
                        (#[trigger] live@[j])@,
                    ) by {}
                }
            }
            k += 1;
        }
        let ghost pre = *old(self);
        self.files = kept;
        self.next_id = nid;
        proof {
            let fin = self.files@;
            let oldf = pre.files@;
            assert forall|a: int, b: int|
                #![trigger fin[a], fin[b]]
                0 <= a < b < fin.len() implies {
                &&& fin[a].id != fin[b].id
                &&& (fin[a].project_id == fin[b].project_id ==> fin[a].path@ != fin[b].path@)
                &&& (fin[a].project_id == fin[b].project_id ==> !(fin[a].default && fin[b].default))
            } by {
                if b < kls {
                    assert(fin[a] == oldf[origins[a]]);
                    assert(fin[b] == oldf[origins[b]]);
                    assert(origins[a] < origins[b]);
                    assert(oldf[origins[a]].id != oldf[origins[b]].id);
                } else if a < kls {
                    assert(fin[a] == oldf[origins[a]]);
                    assert(0 < oldf[origins[a]].id < pre.next_id);
                } else {
                }
            }
            assert forall|q: ProjectFile| #[trigger]
                oldf.contains(q) implies 0 < q.id < pre.next_id by {
                let w = choose|w: int| 0 <= w < oldf.len() && oldf[w] == q;
                assert(0 < oldf[w].id < pre.next_id);
            }
            assert forall|i2: int|
                0 <= i2 < fin.len() implies self.project_exists(
                (#[trigger] fin[i2]).project_id,
            ) by {
                if i2 < kls {
                    assert(fin[i2] == oldf[origins[i2]]);
                    assert(pre.project_exists(oldf[origins[i2]].project_id));
                    let w = choose|w: int|
                        0 <= w < pre.projects@.len() && (#[trigger] pre.projects@[w]).id
                            == oldf[origins[i2]].project_id;
                    assert(self.projects@[w].id == fin[i2].project_id);
                } else {
                    let w = choose|w: int|
                        0 <= w < pre.projects@.len() && (#[trigger] pre.projects@[w]).id
                            == project_id;
                    assert(self.projects@[w].id == fin[i2].project_id);
                }
            }
            assert forall|i2: int|
                0 <= i2 < self.links@.len() implies self.project_exists(
                (#[trigger] self.links@[i2]).project_id,
            ) && self.tag_exists(self.links@[i2].tag_id) by {
                assert(pre.project_exists(pre.links@[i2].project_id));
                assert(pre.tag_exists(pre.links@[i2].tag_id));
                let w = choose|w: int|
                    0 <= w < pre.projects@.len() && (#[trigger] pre.projects@[w]).id
                        == self.links@[i2].project_id;
                assert(self.projects@[w].id == self.links@[i2].project_id);
                let w2 = choose|w2: int|
                    0 <= w2 < pre.tags@.len() && (#[trigger] pre.tags@[w2]).id
                        == self.links@[i2].tag_id;
                assert(self.tags@[w2].id == self.links@[i2].tag_id);
            }
            assert forall|i2: int|
                0 <= i2 < self.sources@.len() implies self.project_exists(
                (#[trigger] self.sources@[i2]).project_id,
            ) by {
                assert(pre.project_exists(pre.sources@[i2].project_id));
                let w = choose|w: int|
                    0 <= w < pre.projects@.len() && (#[trigger] pre.projects@[w]).id
                        == self.sources@[i2].project_id;
                assert(self.projects@[w].id == self.sources@[i2].project_id);
            }
            // the known-file set now equals the live set
            assert forall|p: Seq<char>|
                #![trigger self.has_file_path(project_id, p)]
                #![trigger live_contains(live@, p)]
                self.has_file_path(project_id, p) <==> live_contains(live@, p) by {
                if self.has_file_path(project_id, p) {
                    let w = choose|w: int|
                        0 <= w < fin.len() && (#[trigger] fin[w]).project_id == project_id
                            && fin[w].path@ == p;
                    if w < kls {
                        assert(fin[w] == oldf[origins[w]]);
                    }
                    assert(live_contains(live@, p));
                }
                if live_contains(live@, p) {
                    let j = choose|j: int| 0 <= j < live@.len() && (#[trigger] live@[j])@ == p;
                    assert(rows_have_path(kept@, project_id, (live@[j])@));
                }
            }
            // kept rows and other projects' rows carried over
            assert forall|q: ProjectFile| #[trigger]
                oldf.contains(q) && (q.project_id != project_id || live_contains(live@, q.path@))
                    implies fin.contains(q) by {
                let w = choose|w: int| 0 <= w < oldf.len() && oldf[w] == q;
                assert(kept@.contains(oldf[w]));
            }
            // every stored row is old or freshly added
            assert forall|q: ProjectFile| #[trigger]
                fin.contains(q) implies oldf.contains(q) || (q.project_id == project_id
                && live_contains(live@, q.path@) && q.notes is None && !q.default && pre.next_id
                <= q.id) by {
                let w = choose|w: int| 0 <= w < fin.len() && fin[w] == q;
                if w < kls {
                    assert(fin[w] == oldf[origins[w]]);
                    assert(oldf.contains(oldf[origins[w]]));
                }
            }
            // stale rows are gone
            assert forall|q: ProjectFile| #[trigger]
                oldf.contains(q) && q.project_id == project_id && !live_contains(live@, q.path@)
                    implies !fin.contains(q) by {
                if fin.contains(q) {
                    let w = choose|w: int| 0 <= w < fin.len() && fin[w] == q;
                    if w < kls {
                        assert((kept@[w]).project_id != project_id || live_contains(
                            live@,
                            kept@[w].path@,
                        ));
                    } else {
                        assert(pre.next_id <= fin[w].id);
                    }
                }
            }
            // the report is sound and complete
            assert forall|a: int|
                0 <= a < added@.len() implies fin.contains(#[trigger] added@[a]) && !oldf.contains(
                added@[a],
            ) by {
                assert(added@[a] == kept@.subrange(kls, kept@.len() as int)[a]);
                assert(added@[a] == fin[kls + a]);
                assert(fin.contains(fin[kls + a]));
                if oldf.contains(added@[a]) {
                    assert(added@[a].id < pre.next_id);
                    assert(pre.next_id <= fin[kls + a].id);
                }
            }
            assert forall|q: ProjectFile| #[trigger]
                fin.contains(q) && !oldf.contains(q) implies added@.contains(q) by {
                let w = choose|w: int| 0 <= w < fin.len() && fin[w] == q;
                if w < kls {
                    assert(fin[w] == oldf[origins[w]]);
                    assert(oldf.contains(oldf[origins[w]]));
                } else {
                    assert(added@[w - kls] == q);
                }
            }
            assert forall|q: ProjectFile| #[trigger]
                oldf.contains(q) && q.project_id == project_id && !live_contains(live@, q.path@)
                    implies removed@.contains(q) by {
                let w = choose|w: int| 0 <= w < oldf.len() && oldf[w] == q;
            }
            // idempotence: a synchronized project yields an empty report
            if (forall|p: Seq<char>|
                #![trigger pre.has_file_path(project_id, p)]
                #![trigger live_contains(live@, p)]
                pre.has_file_path(project_id, p) <==> live_contains(live@, p)) {
                assert(removed@.len() == 0) by {
                    if removed@.len() > 0 {
                        let q = removed@[0];
                        assert(oldf.contains(q));
                        assert(pre.has_file_path(project_id, q.path@)) by {
                            let w = choose|w: int| 0 <= w < oldf.len() && oldf[w] == q;
                            assert((#[trigger] oldf[w]).project_id == project_id && oldf[w].path@
                                == q.path@);
                        }
                    }
                }
                assert(added@.len() == 0) by {
                    if added@.len() > 0 {
                        let q = kept@[kls];
                        assert(added@[0] == q);
                        assert(live_contains(live@, q.path@));
                        assert(!pre.has_file_path(project_id, q.path@));
                    }
                }
            }
            assert(files_synced(pre, *self, project_id, live@, added@, removed@));
        }
        Ok(SyncReport { added, removed })
    }

    /// Index of the file row with the given id.
    pub(crate) fn find_file_by_id(&self, id: i64) -> (r: Option<usize>)
        ensures
            match r {
                Some(i) => i < self.files@.len() && self.files@[i as int].id == id,
                None => !self.file_exists(id),
            },
    {
        let n: usize = self.files.len();
        let mut i: usize = 0;
        while i < n
            invariant
                n == self.files@.len(),
                i <= n,
                forall|j: int| 0 <= j < i ==> (#[trigger] self.files@[j]).id != id,
            decreases n - i,
        {
            if self.files[i].id == id {
                return Some(i);
            }
            i += 1;
        }
        None
    }

    /// Another file row of the same project (a different id) already holds
    /// this path.
    pub open spec fn file_path_taken_by_other(
        self,
        project_id: i64,
        path: Seq<char>,
        id: i64,
    ) -> bool {
        exists|i: int|
            0 <= i < self.files@.len() && (#[trigger] self.files@[i]).project_id == project_id
                && self.files@[i].path@ == path && self.files@[i].id != id
    }

    /// Writing `file` would give it the same path as another file of its
    /// project: the row with `file`'s id exists and a different row of the
    /// same project already holds the new path.
    pub open spec fn file_update_conflicts(self, file: ProjectFile) -> bool {
        exists|i: int|
            0 <= i < self.files@.len() && (#[trigger] self.files@[i]).id == file.id
                && self.file_path_taken_by_other(
                self.files@[i].project_id,
                file.path@,
                file.id,
            )
    }

    /// How an existing file row looks after another file of its project was
    /// made the default: its own default flag is cleared when `clear` holds.
    pub open spec fn cleared_row(f: ProjectFile, clear: bool) -> ProjectFile {
        ProjectFile {
            id: f.id,
            path: f.path,
            notes: f.notes,
            project_id: f.project_id,
            default: f.default && !clear,
        }
    }

    /// Persists a file's path, notes and default flag (the owning project
    /// cannot change). When the file is being made the default, the default
    /// flag of every other file of the same project is cleared first, so at
    /// most one file per project is ever the default. Returns the row as
    /// stored.
    pub fn update_project_file(&mut self, file: &ProjectFile) -> (r: Result<
        ProjectFile,
        StoreError,
    >)
        requires
            old(self).wf(),
        ensures
            final(self).wf(),
            final(self).projects@ == old(self).projects@,
            final(self).tags@ == old(self).tags@,
            final(self).links@ == old(self).links@,
            final(self).sources@ == old(self).sources@,
            final(self).next_id == old(self).next_id,
            r is Ok <==> old(self).file_exists(file.id) && !old(self).file_update_conflicts(
                *file,
            ),
            match r {
                Ok(out) => {
                    &&& final(self).files@.len() == old(self).files@.len()
                    &&& exists|i: int|
                        0 <= i < old(self).files@.len() && (#[trigger] old(self).files@[i]).id
                            == file.id && out == ProjectFile {
                            id: file.id,
                            path: file.path,
                            notes: file.notes,
                            project_id: old(self).files@[i].project_id,
                            default: file.default,
                        } && final(self).files@[i] == out && forall|j: int|
                            0 <= j < old(self).files@.len() && j != i
                                ==> #[trigger] final(self).files@[j] == Self::cleared_row(
                                old(self).files@[j],
                                file.default && old(self).files@[j].project_id
                                    == old(self).files@[i].project_id,
                            )
                    &&& (file.default ==> forall|j: int|
                        0 <= j < final(self).files@.len() && (#[trigger] final(self).files@[j]).project_id
                            == out.project_id && final(self).files@[j].id != file.id
                            ==> !final(self).files@[j].default)
                },
                Err(e) => {
                    &&& *final(self) == *old(self)
                    &&& (e is NotFound <==> !old(self).file_exists(file.id))
                    &&& (e is Duplicate <==> old(self).file_update_conflicts(*file))
                    &&& (e is NotFound || e is Duplicate)
                },
            },
    {
        let idx = match self.find_file_by_id(file.id) {
            Some(i) => i,
            None => {
                proof {
                    if old(self).file_update_conflicts(*file) {
                        let i2 = choose|i2: int|
                            0 <= i2 < old(self).files@.len() && (#[trigger] old(
                                self,
                            ).files@[i2]).id == file.id && old(self).file_path_taken_by_other(
                                old(self).files@[i2].project_id,
                                file.path@,
                                file.id,
                            );
                        assert(old(self).file_exists(file.id));
                    }
                }
                return Err(StoreError::NotFound);
            },
        };
        let pid = self.files[idx].project_id;
        let n: usize = self.files.len();
        let mut j: usize = 0;
        while j < n
            invariant
                *self == *old(self),
                old(self).wf(),
                idx < n,
                n == self.files@.len(),
                j <= n,
                pid == self.files@[idx as int].project_id,
                self.files@[idx as int].id == file.id,
                forall|w: int|
                    0 <= w < j && w != idx ==> !((#[trigger] self.files@[w]).project_id == pid
                        && self.files@[w].path@ == file.path@),
            decreases n - j,
        {
            if j != idx && self.files[j].project_id == pid && self.files[j].path.eq(&file.path) {
                proof {
                    let ii = idx as int;
                    let jj = j as int;
                    if ii < jj {
                        assert(self.files@[ii].id != self.files@[jj].id);
                    } else {
                        assert(self.files@[jj].id != self.files@[ii].id);
                    }
                    assert(old(self).file_path_taken_by_other(pid, file.path@, file.id)) by {
                        assert((#[trigger] old(self).files@[jj]).project_id == pid && old(
                            self,
                        ).files@[jj].path@ == file.path@ && old(self).files@[jj].id != file.id);
                    }
                    assert(old(self).file_update_conflicts(*file)) by {
                        assert((#[trigger] old(self).files@[ii]).id == file.id);
                    }
                }
                return Err(StoreError::Duplicate);
            }
            j += 1;
        }
        proof {
            assert(!old(self).file_update_conflicts(*file)) by {
                if old(self).file_update_conflicts(*file) {
                    let i2 = choose|i2: int|
                        0 <= i2 < old(self).files@.len() && (#[trigger] old(self).files@[i2]).id
                            == file.id && old(self).file_path_taken_by_other(
                            old(self).files@[i2].project_id,
                            file.path@,
                            file.id,
                        );
                    let ii = idx as int;
                    assert(i2 == ii) by {
                        if i2 < ii {
                            assert(old(self).files@[i2].id != old(self).files@[ii].id);
                        }
                        if ii < i2 {
                            assert(old(self).files@[ii].id != old(self).files@[i2].id);
                        }
                    }
                    let w = choose|w: int|
                        0 <= w < old(self).files@.len() && (#[trigger] old(self).files@[w]).project_id
                            == pid && old(self).files@[w].path@ == file.path@ && old(
                            self,
                        ).files@[w].id != file.id;
                    assert(w != ii);
                    assert(!((#[trigger] self.files@[w]).project_id == pid && self.files@[w].path@
                        == file.path@));
                }
            }
        }
        if file.default {
            let mut w: usize = 0;
            while w < n
                invariant
                    old(self).wf(),
                    idx < n,
                    n == self.files@.len(),
                    n == old(self).files@.len(),
                    w <= n,
                    forall|w2: int|
                        0 <= w2 < n && w2 != idx ==> !((#[trigger] old(
                            self,
                        ).files@[w2]).project_id == pid && old(self).files@[w2].path@
                            == file.path@),
                    !old(self).file_update_conflicts(*file),
                    pid == old(self).files@[idx as int].project_id,
                    old(self).files@[idx as int].id == file.id,
                    self.projects@ == old(self).projects@,
                    self.tags@ == old(self).tags@,
                    self.links@ == old(self).links@,
                    self.sources@ == old(self).sources@,
                    self.next_id == old(self).next_id,
                    self.files@.len() == n,
                    forall|v: int|
                        0 <= v < w && v != idx ==> #[trigger] self.files@[v] == Self::cleared_row(
                            old(self).files@[v],
                            old(self).files@[v].project_id == pid,
                        ),
                    forall|v: int|
                        w <= v < n || v == idx ==> #[trigger] self.files@[v]
                            == old(self).files@[v],
                decreases n - w,
            {
                if w != idx && self.files[w].project_id == pid && self.files[w].default {
                    let f = &self.files[w];
                    let repl = ProjectFile {
                        id: f.id,
                        path: f.path.clone(),
                        notes: match &f.notes {
                            Some(s) => Some(s.clone()),
                            None => None,
                        },
                        project_id: f.project_id,
                        default: false,
                    };
                    self.files.set(w, repl);
                }
                w += 1;
            }
        }
        let stored = ProjectFile {
            id: file.id,
            path: file.path.clone(),
            notes: match &file.notes {
                Some(s) => Some(s.clone()),
                None => None,
            },
            project_id: pid,
            default: file.default,
        };
        let out = stored.clone();
        self.files.set(idx, stored);
        proof {
            lemma_wf_outside_files(*old(self), *self);
            let fin = self.files@;
            let oldf = old(self).files@;
            let ii = idx as int;
            assert forall|a: int|
                0 <= a < fin.len() && a != ii implies #[trigger] fin[a] == Self::cleared_row(
                oldf[a],
                file.default && oldf[a].project_id == pid,
            ) by {}
            assert forall|a: int, b: int|
                #![trigger fin[a], fin[b]]
                0 <= a < b < fin.len() implies {
                &&& fin[a].id != fin[b].id
                &&& (fin[a].project_id == fin[b].project_id ==> fin[a].path@ != fin[b].path@)
                &&& (fin[a].project_id == fin[b].project_id ==> !(fin[a].default && fin[b].default))
            } by {
                assert(fin[a].id == oldf[a].id && fin[a].project_id == oldf[a].project_id);
                assert(fin[b].id == oldf[b].id && fin[b].project_id == oldf[b].project_id);
                if a != ii && b != ii {
                    assert(fin[a].path@ == oldf[a].path@);
                    assert(fin[b].path@ == oldf[b].path@);
                }
                if fin[a].project_id == fin[b].project_id && fin[a].default && fin[b].default {
                    if a == ii {
                        assert(fin[b].default ==> !(file.default && oldf[b].project_id == pid));
                    } else if b == ii {
                        assert(fin[a].default ==> !(file.default && oldf[a].project_id == pid));
                    }
                }
            }
            assert forall|i2: int|
                0 <= i2 < fin.len() implies self.project_exists(
                (#[trigger] fin[i2]).project_id,
            ) by {
                assert(fin[i2].project_id == oldf[i2].project_id);
                assert(old(self).project_exists(oldf[i2].project_id));
                let w2 = choose|w2: int|
                    0 <= w2 < old(self).projects@.len() && (#[trigger] old(self).projects@[w2]).id
                        == oldf[i2].project_id;
                assert(self.projects@[w2].id == fin[i2].project_id);
            }
            assert forall|i2: int|
                0 <= i2 < fin.len() implies 0 < (#[trigger] fin[i2]).id < self.next_id by {
                assert(fin[i2].id == oldf[i2].id);
            }
        }
        Ok(out)
    }

    /// Index of the tag row with the given text.
    pub(crate) fn find_tag_by_text(&self, text: &String) -> (r: Option<usize>)
        ensures
            match r {
                Some(i) => i < self.tags@.len() && self.tags@[i as int].tag@ == text@,
                None => !self.has_tag_text(text@),
            },
    {
        let n: usize = self.tags.len();
        let mut i: usize = 0;
        while i < n
            invariant
                n == self.tags@.len(),
                i <= n,
                forall|j: int| 0 <= j < i ==> (#[trigger] self.tags@[j]).tag@ != text@,
            decreases n - i,
        {
            if self.tags[i].tag.eq(text) {
                return Some(i);
            }
            i += 1;
        }
        None
    }

    /// Looks a tag up by its exact text and inserts it when absent: tag
    /// text is globally unique, so the same text always yields the same tag
    /// row. The flag reports whether a row was inserted.
    pub fn get_or_create_tag(&mut self, text: &String) -> (r: Result<
        (ProjectTag, bool),
        StoreError,
    >)
        requires
            old(self).wf(),
        ensures
            final(self).wf(),
            final(self).projects@ == old(self).projects@,
            final(self).files@ == old(self).files@,
            final(self).links@ == old(self).links@,
            final(self).sources@ == old(self).sources@,
            r is Ok <==> old(self).has_tag_text(text@) || old(self).next_id < i64::MAX,
            match r {
                Ok((t, created)) => {
                    &&& t.tag@ == text@
                    &&& final(self).tags@.contains(t)
                    &&& final(self).has_tag_text(text@)
                    &&& (created <==> !old(self).has_tag_text(text@))
                    &&& (!created ==> *final(self) == *old(self) && old(self).tags@.contains(t))
                    &&& (created ==> final(self).tags@ == old(self).tags@.push(t) && t.id == old(
                        self,
                    ).next_id && final(self).next_id == old(self).next_id + 1)
                },
                Err(e) => {
                    &&& *final(self) == *old(self)
                    &&& e is IdSpace
                    &&& !old(self).has_tag_text(text@)
                },
            },
    {
        match self.find_tag_by_text(text) {
            Some(i) => {
                let t = self.tags[i].clone();
                proof {
                    assert(self.tags@.contains(self.tags@[i as int]));
                }
                Ok((t, false))
            },
            None => {
                if self.next_id == i64::MAX {
                    return Err(StoreError::IdSpace);
                }
                let id = self.next_id;
                self.next_id = self.next_id + 1;
                let t = ProjectTag { id, tag: text.clone() };
                self.tags.push(t.clone());
                proof {
                    lemma_wf_outside_tags(*old(self), *self);
                    let oldt = old(self).tags@;
                    let newi = oldt.len() as int;
                    assert(self.tags@[newi] == t);
                    assert(self.tags@.contains(self.tags@[newi]));
                    assert forall|a: int, b: int|
                        #![trigger self.tags@[a], self.tags@[b]]
                        0 <= a < b < self.tags@.len() implies self.tags@[a].id != self.tags@[b].id
                        && self.tags@[a].tag@ != self.tags@[b].tag@ by {
                        if b == newi {
                            assert(self.tags@[a] == oldt[a]);
                            assert(0 < oldt[a].id < old(self).next_id);
                            if oldt[a].tag@ == text@ {
                                assert(old(self).has_tag_text(text@));
                            }
                        } else {
                            assert(self.tags@[a] == oldt[a]);
                            assert(self.tags@[b] == oldt[b]);
                        }
                    }
                    assert forall|i2: int|
                        0 <= i2 < self.links@.len() implies self.project_exists(
                        (#[trigger] self.links@[i2]).project_id,
                    ) && self.tag_exists(self.links@[i2].tag_id) by {
                        assert(old(self).project_exists(old(self).links@[i2].project_id));
                        let wp = choose|wp: int|
                            0 <= wp < old(self).projects@.len() && (#[trigger] old(
                                self,
                            ).projects@[wp]).id == self.links@[i2].project_id;
                        assert(self.projects@[wp].id == self.links@[i2].project_id);
                        assert(old(self).tag_exists(old(self).links@[i2].tag_id));
                        let w2 = choose|w2: int|
                            0 <= w2 < oldt.len() && (#[trigger] oldt[w2]).id
                                == self.links@[i2].tag_id;
                        assert(self.tags@[w2].id == self.links@[i2].tag_id);
                    }
                }
                Ok((t, true))
            },
        }
    }

    /// Associates a project with a tag; doing it again is a no-op. The flag
    /// reports whether an association row was inserted.
    pub fn add_link(&mut self, project_id: i64, tag_id: i64) -> (r: Result<bool, StoreError>)
        requires
            old(self).wf(),
        ensures
            final(self).wf(),
            final(self).projects@ == old(self).projects@,
            final(self).files@ == old(self).files@,
            final(self).tags@ == old(self).tags@,
            final(self).sources@ == old(self).sources@,
            final(self).next_id == old(self).next_id,
            r is Ok <==> old(self).project_exists(project_id) && old(self).tag_exists(tag_id),
            match r {
                Ok(added) => {
                    &&& (added <==> !old(self).has_link(project_id, tag_id))
                    &&& (added ==> final(self).links@ == old(self).links@.push(
                        TagLink { project_id, tag_id },
                    ))
                    &&& (!added ==> final(self).links@ == old(self).links@)
                    &&& final(self).has_link(project_id, tag_id)
                },
                Err(e) => {
                    &&& *final(self) == *old(self)
                    &&& e is NotFound
                },
            },
    {
        if self.find_project_by_id(project_id).is_none() {
            return Err(StoreError::NotFound);
        }
        let tidx = match self.tags_index_of_id(tag_id) {
            Some(i) => i,
            None => {
                return Err(StoreError::NotFound);
            },
        };
        if self.has_link_exec(project_id, tag_id) {
            return Ok(false);
        }
        let l = TagLink { project_id, tag_id };
        self.links.push(l);
        proof {
            lemma_wf_outside_links(*old(self), *self);
            let oldl = old(self).links@;
            let newi = oldl.len() as int;
            assert(self.links@[newi] == l);
            assert forall|a: int, b: int|
                #![trigger self.links@[a], self.links@[b]]
                0 <= a < b < self.links@.len() implies self.links@[a] != self.links@[b] by {
                if b == newi {
                    assert(self.links@[a] == oldl[a]);
                    if oldl[a] == l {
                        assert(old(self).has_link(project_id, tag_id));
                    }
                } else {
                    assert(self.links@[a] == oldl[a]);
                    assert(self.links@[b] == oldl[b]);
                }
            }
            assert forall|i2: int|
                0 <= i2 < self.links@.len() implies self.project_exists(
                (#[trigger] self.links@[i2]).project_id,
            ) && self.tag_exists(self.links@[i2].tag_id) by {
                if i2 == newi {
                    assert(old(self).project_exists(project_id));
                    let wp = choose|wp: int|
                        0 <= wp < old(self).projects@.len() && (#[trigger] old(
                            self,
                        ).projects@[wp]).id == project_id;
                    assert(self.projects@[wp].id == project_id);
                    assert(self.tags@[tidx as int].id == tag_id);
                } else {
                    assert(self.links@[i2] == oldl[i2]);
                    assert(old(self).project_exists(oldl[i2].project_id));
                    let wp = choose|wp: int|
                        0 <= wp < old(self).projects@.len() && (#[trigger] old(
                            self,
                        ).projects@[wp]).id == oldl[i2].project_id;
                    assert(self.projects@[wp].id == oldl[i2].project_id);
                    assert(old(self).tag_exists(oldl[i2].tag_id));
                    let wt = choose|wt: int|
                        0 <= wt < old(self).tags@.len() && (#[trigger] old(self).tags@[wt]).id
                            == oldl[i2].tag_id;
                    assert(self.tags@[wt].id == oldl[i2].tag_id);
                }
            }
        }
        Ok(true)
    }

    /// Index of the tag row with the given id.
    pub(crate) fn tags_index_of_id(&self, id: i64) -> (r: Option<usize>)
        ensures
            match r {
                Some(i) => i < self.tags@.len() && self.tags@[i as int].id == id,
                None => !self.tag_exists(id),
            },
    {
        let n: usize = self.tags.len();
        let mut i: usize = 0;
        while i < n
            invariant
                n == self.tags@.len(),
                i <= n,
                forall|j: int| 0 <= j < i ==> (#[trigger] self.tags@[j]).id != id,
            decreases n - i,
        {
            if self.tags[i].id == id {
                return Some(i);
            }
            i += 1;
        }
        None
    }

    /// Deletes the association between a project and a tag, when present.
    /// The tag row itself stays and can be attached to other projects.
    pub fn remove_link(&mut self, project_id: i64, tag_id: i64) -> (r: bool)
        requires
            old(self).wf(),
        ensures
            final(self).wf(),
            final(self).projects@ == old(self).projects@,
            final(self).files@ == old(self).files@,
            final(self).tags@ == old(self).tags@,
            final(self).sources@ == old(self).sources@,
            final(self).next_id == old(self).next_id,
            !final(self).has_link(project_id, tag_id),
            r <==> old(self).has_link(project_id, tag_id),
            !r ==> *final(self) == *old(self),
            forall|l: TagLink|
                #[trigger] old(self).links@.contains(l) && l != (TagLink { project_id, tag_id })
                    ==> final(self).links@.contains(l),
            forall|l: TagLink| #[trigger]
                final(self).links@.contains(l) ==> old(self).links@.contains(l),
    {
        let n: usize = self.links.len();
        let mut i: usize = 0;
        while i < n
            invariant
                *self == *old(self),
                old(self).wf(),
                n == self.links@.len(),
                i <= n,
                forall|j: int|
                    0 <= j < i ==> !((#[trigger] self.links@[j]).project_id == project_id
                        && self.links@[j].tag_id == tag_id),
            decreases n - i,
        {
            if self.links[i].project_id == project_id && self.links[i].tag_id == tag_id {
                let ghost oldl = self.links@;
                let ghost ii = i as int;
                self.links.remove(i);
                proof {
                    lemma_wf_outside_links(*old(self), *self);
                    assert(self.links@ =~= oldl.remove(ii));
                    oldl.remove_ensures(ii);
                    assert forall|a: int|
                        0 <= a < self.links@.len() implies oldl.contains(
                        #[trigger] self.links@[a],
                    ) by {
                        if a < ii {
                            assert(self.links@[a] == oldl[a]);
                        } else {
                            assert(self.links@[a] == oldl[a + 1]);
                        }
                    }
                    assert forall|a: int, b: int|
                        #![trigger self.links@[a], self.links@[b]]
                        0 <= a < b < self.links@.len() implies self.links@[a]
                        != self.links@[b] by {
                        let a2 = if a < ii {
                            a
                        } else {
                            a + 1
                        };
                        let b2 = if b < ii {
                            b
                        } else {
                            b + 1
                        };
                        assert(self.links@[a] == oldl[a2]);
                        assert(self.links@[b] == oldl[b2]);
                    }
                    assert forall|i2: int|
                        0 <= i2 < self.links@.len() implies self.project_exists(
                        (#[trigger] self.links@[i2]).project_id,
                    ) && self.tag_exists(self.links@[i2].tag_id) by {
                        let a2 = if i2 < ii {
                            i2
                        } else {
                            i2 + 1
                        };
                        assert(self.links@[i2] == oldl[a2]);
                        assert(old(self).project_exists(oldl[a2].project_id));
                        let wp = choose|wp: int|
                            0 <= wp < old(self).projects@.len() && (#[trigger] old(
                                self,
                            ).projects@[wp]).id == oldl[a2].project_id;
                        assert(self.projects@[wp].id == oldl[a2].project_id);
                        assert(old(self).tag_exists(oldl[a2].tag_id));
                        let wt = choose|wt: int|
                            0 <= wt < old(self).tags@.len() && (#[trigger] old(self).tags@[wt]).id
                                == oldl[a2].tag_id;
                        assert(self.tags@[wt].id == oldl[a2].tag_id);
                    }
                    assert(!self.has_link(project_id, tag_id)) by {
                        if self.has_link(project_id, tag_id) {
                            let w = choose|w: int|
                                0 <= w < self.links@.len() && (#[trigger] self.links@[w]).project_id
                                    == project_id && self.links@[w].tag_id == tag_id;
                            let w2 = if w < ii {
                                w
                            } else {
                                w + 1
                            };
                            assert(self.links@[w] == oldl[w2]);
                            assert(oldl[w2] == oldl[ii] && w2 != ii);
                        }
                    }
                    assert forall|l: TagLink| #[trigger]
                        old(self).links@.contains(l) && l != (TagLink { project_id, tag_id })
                            implies self.links@.contains(l) by {
                        let w = choose|w: int| 0 <= w < oldl.len() && oldl[w] == l;
                        if w < ii {
                            assert(self.links@[w] == l);
                        } else {
                            assert(w != ii);
                            assert(self.links@[w - 1] == l);
                        }
                    }
                    assert(old(self).has_link(project_id, tag_id)) by {
                        assert((#[trigger] oldl[ii]).project_id == project_id && oldl[ii].tag_id
                            == tag_id);
                    }
                }
                return true;
            }
            i += 1;
        }
        false
    }

    /// Appends a named external URL reference to a project.
    pub fn add_source(&mut self, project_id: i64, name: &String, url: &String) -> (r: Result<
        ProjectSource,
        StoreError,
    >)
        requires
            old(self).wf(),
        ensures
            final(self).wf(),
            final(self).projects@ == old(self).projects@,
            final(self).files@ == old(self).files@,
            final(self).tags@ == old(self).tags@,
            final(self).links@ == old(self).links@,
            r is Ok <==> old(self).project_exists(project_id) && old(self).next_id < i64::MAX,
            match r {
                Ok(s) => {
                    &&& s.id == old(self).next_id
                    &&& s.name@ == name@
                    &&& s.url@ == url@
                    &&& s.project_id == project_id
                    &&& final(self).sources@ == old(self).sources@.push(s)
                    &&& final(self).next_id == old(self).next_id + 1
                },
                Err(e) => {
                    &&& *final(self) == *old(self)
                    &&& (e is NotFound <==> !old(self).project_exists(project_id))
                    &&& (e is NotFound || e is IdSpace)
                },
            },
    {
        if self.find_project_by_id(project_id).is_none() {
            return Err(StoreError::NotFound);
        }
        if self.next_id == i64::MAX {
            return Err(StoreError::IdSpace);
        }
        let id = self.next_id;
        self.next_id = self.next_id + 1;
        let s = ProjectSource { id, name: name.clone(), url: url.clone(), project_id };
        self.sources.push(s.clone());
        proof {
            let olds = old(self).sources@;
            let newi = olds.len() as int;
            assert(self.sources@[newi] == s);
            assert forall|a: int, b: int|
                #![trigger self.sources@[a], self.sources@[b]]
                0 <= a < b < self.sources@.len() implies self.sources@[a].id
                != self.sources@[b].id by {
                if b == newi {
                    assert(self.sources@[a] == olds[a]);
                    assert(0 < olds[a].id < old(self).next_id);
                } else {
                    assert(self.sources@[a] == olds[a]);
                    assert(self.sources@[b] == olds[b]);
                }
            }
            assert forall|i2: int|
                0 <= i2 < self.sources@.len() implies self.project_exists(
                (#[trigger] self.sources@[i2]).project_id,
            ) by {
                let target = if i2 == newi {
                    project_id
                } else {
                    olds[i2].project_id
                };
                if i2 != newi {
                    assert(self.sources@[i2] == olds[i2]);
                }
                assert(old(self).project_exists(target));
                let wp = choose|wp: int|
                    0 <= wp < old(self).projects@.len() && (#[trigger] old(self).projects@[wp]).id
                        == target;
                assert(self.projects@[wp].id == target);
            }
        }
        Ok(s)
    }

    /// Checks every table rule on this catalog, as built from untrusted
    /// rows read back from disk: the answer is exactly whether the catalog
    /// is well-formed. One that is not is rejected by the loader as corrupt.
    pub fn validate(&self) -> (r: bool)
        ensures
            r <==> self.wf(),
    {
        if self.next_id < 1 {
            proof {
                assert(!self.ids_wf());
            }
            return false;
        }
        let np: usize = self.projects.len();
        let mut i: usize = 0;
        while i < np
            invariant
                np == self.projects@.len(),
                i <= np,
                forall|a: int|
                    0 <= a < i ==> 0 < (#[trigger] self.projects@[a]).id < self.next_id,
                forall|a: int, b: int|
                    #![trigger self.projects@[a], self.projects@[b]]
                    0 <= a < b < np && a < i ==> self.projects@[a].id != self.projects@[b].id
                        && self.projects@[a].path@ != self.projects@[b].path@,
            decreases np - i,
        {
            if self.projects[i].id <= 0 || self.projects[i].id >= self.next_id {
                proof {
                    assert(!(0 < self.projects@[i as int].id < self.next_id));
                }
                return false;
            }
            let mut j: usize = i + 1;
            while j < np
                invariant
                    np == self.projects@.len(),
                    i < j <= np,
                    forall|b: int|
                        i < b < j ==> (#[trigger] self.projects@[b]).id != self.projects@[i as int].id
                            && self.projects@[b].path@ != self.projects@[i as int].path@,
                decreases np - j,
            {
                if self.projects[j].id == self.projects[i].id || self.projects[j].path.eq(
                    &self.projects[i].path,
                ) {
                    proof {
                        assert(!self.projects_wf()) by {
                            assert(self.projects@[i as int].id == self.projects@[j as int].id
                                || self.projects@[i as int].path@
                                == self.projects@[j as int].path@);
                        }
                    }
                    return false;
                }
                j += 1;
            }
            i += 1;
        }
        let nf: usize = self.files.len();
        let mut i2: usize = 0;
        while i2 < nf
            invariant
                nf == self.files@.len(),
                i2 <= nf,
                forall|a: int| 0 <= a < i2 ==> 0 < (#[trigger] self.files@[a]).id < self.next_id,
                forall|a: int|
                    0 <= a < i2 ==> self.project_exists((#[trigger] self.files@[a]).project_id),
                forall|a: int, b: int|
                    #![trigger self.files@[a], self.files@[b]]
                    0 <= a < b < nf && a < i2 ==> {
                        &&& self.files@[a].id != self.files@[b].id
                        &&& (self.files@[a].project_id == self.files@[b].project_id
                            ==> self.files@[a].path@ != self.files@[b].path@)
                        &&& (self.files@[a].project_id == self.files@[b].project_id ==> !(
                        self.files@[a].default && self.files@[b].default))
                    },
            decreases nf - i2,
        {
            if self.files[i2].id <= 0 || self.files[i2].id >= self.next_id {
                proof {
                    assert(!(0 < self.files@[i2 as int].id < self.next_id));
                }
                return false;
            }
            if self.find_project_by_id(self.files[i2].project_id).is_none() {
                proof {
                    assert(!self.project_exists((#[trigger] self.files@[i2 as int]).project_id));
                }
                return false;
            }
            let mut j: usize = i2 + 1;
            while j < nf
                invariant
                    nf == self.files@.len(),
                    i2 < j <= nf,
                    forall|b: int|
                        i2 < b < j ==> {
                            &&& (#[trigger] self.files@[b]).id != self.files@[i2 as int].id
                            &&& (self.files@[i2 as int].project_id == self.files@[b].project_id
                                ==> self.files@[i2 as int].path@ != self.files@[b].path@)
                            &&& (self.files@[i2 as int].project_id == self.files@[b].project_id
                                ==> !(self.files@[i2 as int].default && self.files@[b].default))
                        },
                decreases nf - j,
            {
                if self.files[j].id == self.files[i2].id {
                    proof {
                        assert(self.files@[i2 as int].id == self.files@[j as int].id);
                    }
                    return false;
                }
                if self.files[j].project_id == self.files[i2].project_id {
                    if self.files[j].path.eq(&self.files[i2].path) {
                        proof {
                            assert(self.files@[i2 as int].project_id
                                == self.files@[j as int].project_id && self.files@[i2 as int].path@
                                == self.files@[j as int].path@);
                        }
                        return false;
                    }
                    if self.files[j].default && self.files[i2].default {
                        proof {
                            assert(self.files@[i2 as int].project_id
                                == self.files@[j as int].project_id
                                && self.files@[i2 as int].default
                                && self.files@[j as int].default);
                        }
                        return false;
                    }
                }
                j += 1;
            }
            i2 += 1;
        }
        let nt: usize = self.tags.len();
        let mut i3: usize = 0;
        while i3 < nt
            invariant
                nt == self.tags@.len(),
                i3 <= nt,
                forall|a: int| 0 <= a < i3 ==> 0 < (#[trigger] self.tags@[a]).id < self.next_id,
                forall|a: int, b: int|
                    #![trigger self.tags@[a], self.tags@[b]]
                    0 <= a < b < nt && a < i3 ==> self.tags@[a].id != self.tags@[b].id
                        && self.tags@[a].tag@ != self.tags@[b].tag@,
            decreases nt - i3,
        {
            if self.tags[i3].id <= 0 || self.tags[i3].id >= self.next_id {
                proof {
                    assert(!(0 < self.tags@[i3 as int].id < self.next_id));
                }
                return false;
            }
            let mut j: usize = i3 + 1;
            while j < nt
                invariant
                    nt == self.tags@.len(),
                    i3 < j <= nt,
                    forall|b: int|
                        i3 < b < j ==> (#[trigger] self.tags@[b]).id != self.tags@[i3 as int].id
                            && self.tags@[b].tag@ != self.tags@[i3 as int].tag@,
                decreases nt - j,
            {
                if self.tags[j].id == self.tags[i3].id || self.tags[j].tag.eq(
                    &self.tags[i3].tag,
                ) {
                    proof {
                        assert(!self.tags_wf()) by {
                            assert(self.tags@[i3 as int].id == self.tags@[j as int].id
                                || self.tags@[i3 as int].tag@ == self.tags@[j as int].tag@);
                        }
                    }
                    return false;
                }
                j += 1;
            }
            i3 += 1;
        }
        let nl: usize = self.links.len();
        let mut i4: usize = 0;
        while i4 < nl
            invariant
                nl == self.links@.len(),
                i4 <= nl,
                forall|a: int|
                    0 <= a < i4 ==> self.project_exists((#[trigger] self.links@[a]).project_id)
                        && self.tag_exists(self.links@[a].tag_id),
                forall|a: int, b: int|
                    #![trigger self.links@[a], self.links@[b]]
                    0 <= a < b < nl && a < i4 ==> self.links@[a] != self.links@[b],
            decreases nl - i4,
        {
            if self.find_project_by_id(self.links[i4].project_id).is_none() {
                proof {
                    assert(!self.project_exists((#[trigger] self.links@[i4 as int]).project_id));
                }
                return false;
            }
            if self.tags_index_of_id(self.links[i4].tag_id).is_none() {
                proof {
                    assert(!self.tag_exists((#[trigger] self.links@[i4 as int]).tag_id));
                }
                return false;
            }
            let mut j: usize = i4 + 1;
            while j < nl
                invariant
                    nl == self.links@.len(),
                    i4 < j <= nl,
                    forall|b: int| i4 < b < j ==> (#[trigger] self.links@[b]) != self.links@[i4 as int],
                decreases nl - j,
            {
                if self.links[j].project_id == self.links[i4].project_id && self.links[j].tag_id
                    == self.links[i4].tag_id {
                    proof {
                        assert(self.links@[i4 as int] == self.links@[j as int]);
                    }
                    return false;
                }
                j += 1;
            }
            i4 += 1;
        }
        let ns: usize = self.sources.len();
        let mut i5: usize = 0;
        while i5 < ns
            invariant
                ns == self.sources@.len(),
                i5 <= ns,
                forall|a: int| 0 <= a < i5 ==> 0 < (#[trigger] self.sources@[a]).id < self.next_id,
                forall|a: int|
                    0 <= a < i5 ==> self.project_exists((#[trigger] self.sources@[a]).project_id),
                forall|a: int, b: int|
                    #![trigger self.sources@[a], self.sources@[b]]
                    0 <= a < b < ns && a < i5 ==> self.sources@[a].id != self.sources@[b].id,
            decreases ns - i5,
        {
            if self.sources[i5].id <= 0 || self.sources[i5].id >= self.next_id {
                proof {
                    assert(!(0 < self.sources@[i5 as int].id < self.next_id));
                }
                return false;
            }
            if self.find_project_by_id(self.sources[i5].project_id).is_none() {
                proof {
                    assert(!self.project_exists(
                        (#[trigger] self.sources@[i5 as int]).project_id,
                    ));
                }
                return false;
            }
            let mut j: usize = i5 + 1;
            while j < ns
                invariant
                    ns == self.sources@.len(),
                    i5 < j <= ns,
                    forall|b: int|
                        i5 < b < j ==> (#[trigger] self.sources@[b]).id != self.sources@[i5 as int].id,
                decreases ns - j,
            {
                if self.sources[j].id == self.sources[i5].id {
                    proof {
                        assert(self.sources@[i5 as int].id == self.sources@[j as int].id);
                    }
                    return false;
                }
                j += 1;
            }
            i5 += 1;
        }
        true
    }

    /// Builds a catalog from raw table rows, as read back from disk:
    /// projects (id, name, path, notes), files (id, path, notes,
    /// project id, default flag), tags (id, text), associations
    /// (project id, tag id) and sources (id, url, name, project id). The
    /// rows are carried over one for one, in order; the fresh-id counter is
    /// set above every id; rows that break a table rule are rejected as
    /// `Corrupt`.
    pub fn from_rows(
        prows: &Vec<(i64, String, String, String)>,
        frows: &Vec<(i64, String, Option<String>, i64, bool)>,
        trows: &Vec<(i64, String)>,
        lrows: &Vec<(i64, i64)>,
        srows: &Vec<(i64, String, String, i64)>,
    ) -> (r: Result<Catalog, StoreError>)
        ensures
            match r {
                Ok(c) => {
                    &&& c.wf()
                    &&& c.projects@.len() == prows@.len()
                    &&& forall|i: int|
                        0 <= i < prows@.len() ==> {
                            let row = #[trigger] c.projects@[i];
                            &&& row.id == prows@[i].0
                            &&& row.name@ == prows@[i].1@
                            &&& row.path@ == prows@[i].2@
                            &&& row.notes@ == prows@[i].3@
                        }
                    &&& c.files@.len() == frows@.len()
                    &&& forall|i: int|
                        0 <= i < frows@.len() ==> {
                            let row = #[trigger] c.files@[i];
                            &&& row.id == frows@[i].0
                            &&& row.path@ == frows@[i].1@
                            &&& (row.notes is Some <==> frows@[i].2 is Some)
                            &&& (frows@[i].2 matches Some(notes) ==> row.notes matches Some(held)
                                && held@ == notes@)
                            &&& row.project_id == frows@[i].3
                            &&& row.default == frows@[i].4
                        }
                    &&& c.tags@.len() == trows@.len()
                    &&& forall|i: int|
                        0 <= i < trows@.len() ==> {
                            let row = #[trigger] c.tags@[i];
                            &&& row.id == trows@[i].0
                            &&& row.tag@ == trows@[i].1@
                        }
                    &&& c.links@.len() == lrows@.len()
                    &&& forall|i: int|
                        0 <= i < lrows@.len() ==> {
                            let row = #[trigger] c.links@[i];
                            &&& row.project_id == lrows@[i].0
                            &&& row.tag_id == lrows@[i].1
                        }
                    &&& c.sources@.len() == srows@.len()
                    &&& forall|i: int|
                        0 <= i < srows@.len() ==> {
                            let row = #[trigger] c.sources@[i];
                            &&& row.id == srows@[i].0
                            &&& row.url@ == srows@[i].1@
                            &&& row.name@ == srows@[i].2@
                            &&& row.project_id == srows@[i].3
                        }
                },
                Err(e) => e is Corrupt,
            },
    {
        let mut nid: i64 = 1;
        let mut projects: Vec<ProjectRow> = Vec::new();
        let mut i: usize = 0;
        while i < prows.len()
            invariant
                1 <= nid,
                i <= prows@.len(),
                projects@.len() == i,
                forall|k: int|
                    0 <= k < i ==> {
                        let row = #[trigger] projects@[k];
                        &&& row.id == prows@[k].0
                        &&& row.name@ == prows@[k].1@
                        &&& row.path@ == prows@[k].2@
                        &&& row.notes@ == prows@[k].3@
                    },
            decreases prows@.len() - i,
        {
            let id = prows[i].0;
            if id >= nid {
                if id == i64::MAX {
                    return Err(StoreError::Corrupt);
                }
                nid = id + 1;
            }
            projects.push(
                ProjectRow {
                    id,
                    name: prows[i].1.clone(),
                    path: prows[i].2.clone(),
                    notes: prows[i].3.clone(),
                },
            );
            i += 1;
        }
        let mut files: Vec<ProjectFile> = Vec::new();
        let mut i2: usize = 0;
        while i2 < frows.len()
            invariant
                1 <= nid,
                i2 <= frows@.len(),
                files@.len() == i2,
                forall|k: int|
                    0 <= k < i2 ==> {
                        let row = #[trigger] files@[k];
                        &&& row.id == frows@[k].0
                        &&& row.path@ == frows@[k].1@
                        &&& (row.notes is Some <==> frows@[k].2 is Some)
                        &&& (frows@[k].2 matches Some(notes) ==> row.notes matches Some(held)
                            && held@ == notes@)
                        &&& row.project_id == frows@[k].3
                        &&& row.default == frows@[k].4
                    },
            decreases frows@.len() - i2,
        {
            let id = frows[i2].0;
            if id >= nid {
                if id == i64::MAX {
                    return Err(StoreError::Corrupt);
                }
                nid = id + 1;
            }
            files.push(
                ProjectFile {
                    id,
                    path: frows[i2].1.clone(),
                    notes: match &frows[i2].2 {
                        Some(x) => Some(x.clone()),
                        None => None,
                    },
                    project_id: frows[i2].3,
                    default: frows[i2].4,
                },
            );
            i2 += 1;
        }
        let mut tags: Vec<ProjectTag> = Vec::new();
        let mut i3: usize = 0;
        while i3 < trows.len()
            invariant
                1 <= nid,
                i3 <= trows@.len(),
                tags@.len() == i3,
                forall|k: int|
                    0 <= k < i3 ==> (#[trigger] tags@[k]).id == trows@[k].0 && tags@[k].tag@
                        == trows@[k].1@,
            decreases trows@.len() - i3,
        {
            let id = trows[i3].0;
            if id >= nid {
                if id == i64::MAX {
                    return Err(StoreError::Corrupt);
                }
                nid = id + 1;
            }
            tags.push(ProjectTag { id, tag: trows[i3].1.clone() });
            i3 += 1;
        }
        let mut links: Vec<TagLink> = Vec::new();
        let mut i4: usize = 0;
        while i4 < lrows.len()
            invariant
                i4 <= lrows@.len(),
                links@.len() == i4,
                forall|k: int|
                    0 <= k < i4 ==> (#[trigger] links@[k]).project_id == lrows@[k].0
                        && links@[k].tag_id == lrows@[k].1,
            decreases lrows@.len() - i4,
        {
            links.push(TagLink { project_id: lrows[i4].0, tag_id: lrows[i4].1 });
            i4 += 1;
        }
        let mut sources: Vec<ProjectSource> = Vec::new();
        let mut i5: usize = 0;
        while i5 < srows.len()
            invariant
                1 <= nid,
                i5 <= srows@.len(),
                sources@.len() == i5,
                forall|k: int|
                    0 <= k < i5 ==> {
                        let row = #[trigger] sources@[k];
                        &&& row.id == srows@[k].0
                        &&& row.url@ == srows@[k].1@
                        &&& row.name@ == srows@[k].2@
                        &&& row.project_id == srows@[k].3
                    },
            decreases srows@.len() - i5,
        {
            let id = srows[i5].0;
            if id >= nid {
                if id == i64::MAX {
                    return Err(StoreError::Corrupt);
                }
                nid = id + 1;
            }
            sources.push(
                ProjectSource {
                    id,
                    name: srows[i5].2.clone(),
                    url: srows[i5].1.clone(),
                    project_id: srows[i5].3,
                },
            );
            i5 += 1;
        }
        let candidate = Catalog { projects, files, tags, links, sources, next_id: nid };
        if candidate.validate() {
            Ok(candidate)
        } else {
            Err(StoreError::Corrupt)
        }
    }

    /// All tag rows, ordered by text.
    pub fn list_all_tags(&self) -> (r: Vec<ProjectTag>)
        ensures
            r@.to_multiset() == self.tags@.to_multiset(),
            sorted_by_tag_text(r@),
    {
        let n: usize = self.tags.len();
        let mut out: Vec<ProjectTag> = Vec::new();
        let mut i: usize = 0;
        while i < n
            invariant
                n == self.tags@.len(),
                i <= n,
                out@ == self.tags@.take(i as int),
            decreases n - i,
        {
            out.push(self.tags[i].clone());
            proof {
                assert(out@ =~= self.tags@.take(i + 1));
            }
            i += 1;
        }
        proof {
            assert(self.tags@.take(n as int) =~= self.tags@);
        }
        sort_tags_by_text(out)
    }

    /// Loads a project by id, with its files, tags and sources. Returns
    /// `NotFound` (rather than aborting) when no row has this id.
    pub fn get_project(&self, id: i64) -> (r: Result<Project, StoreError>)
        ensures
            match r {
                Ok(p) => self.loaded_project(id, p),
                Err(e) => e is NotFound && !self.project_exists(id),
            },
    {
        match self.find_project_by_id(id) {
            Some(i) => Ok(self.hydrate(i)),
            None => Err(StoreError::NotFound),
        }
    }
}

} // verus!
