//! The storage engine: owns the database connection and the in-memory
//! catalog. The catalog is loaded from the database once, is the single
//! source of truth for every query, and every mutation is written through
//! to the database row for row. Each SQL statement sits in one small
//! trusted wrapper; everything decided about the rows is verified against
//! the catalog model.
use vstd::prelude::*;
use crate::catalog::{Catalog, ProjectRow, TagLink, SyncReport, files_synced, live_contains, tags_of, sources_of};
use crate::error::StoreError;
use crate::file::ProjectFile;
use crate::project::{Project, ProjectTag, ProjectSource};
use crate::reconcile::{FsEntry, dir_path_in, reconciled};
use crate::laws::lemma_tag_text_identity;

verus! {

#[verifier::external_type_specification]
#[verifier::external_body]
pub struct ExConnection(rusqlite::Connection);

#[verifier::external_type_specification]
#[verifier::external_body]
pub struct ExSqlError(rusqlite::Error);

/// Relies on rusqlite::Error's Display impl: renders the error as text.
#[verifier::external_body]
fn db_error_text(e: &rusqlite::Error) -> (r: String) {
    e.to_string()
}

/// Turns a database error into the library's error value.
fn db_err(e: rusqlite::Error) -> (r: StoreError)
    ensures
        r is Db,
{
    StoreError::Db(db_error_text(&e))
}

/// Relies on rusqlite::Connection::open: opens (creating if absent) the
/// database file at the given path.
#[verifier::external_body]
fn open_db(path: &str) -> (r: Result<rusqlite::Connection, rusqlite::Error>) {
    rusqlite::Connection::open(path)
}

/// Relies on rusqlite::Connection::execute_batch: runs the given SQL
/// statements.
#[verifier::external_body]
fn exec_batch(conn: &rusqlite::Connection, sql: &str) -> (r: Result<(), rusqlite::Error>) {
    conn.execute_batch(sql)
}

/// Relies on rusqlite::Connection::query_row: reads the highest recorded
/// migration version, 0 when none was recorded yet.
#[verifier::external_body]
fn query_version(conn: &rusqlite::Connection) -> (r: Result<i64, rusqlite::Error>) {
    conn.query_row(
        "SELECT COALESCE(MAX(CAST(version AS INTEGER)), 0) FROM _migrations",
        (),
        |row| row.get(0),
    )
}

/// Relies on rusqlite::Connection::execute: records one applied migration
/// version in the ledger.
#[verifier::external_body]
fn record_migration(conn: &rusqlite::Connection, version: i64) -> (r: Result<
    (),
    rusqlite::Error,
>) {
    conn.execute("INSERT INTO _migrations (version) VALUES (?1)", (version,))?;
    Ok(())
}

/// Relies on rusqlite::Connection::execute: inserts one project row with
/// an explicit id.
#[verifier::external_body]
fn sql_insert_project(
    conn: &rusqlite::Connection,
    id: i64,
    name: &String,
    path: &String,
    notes: &String,
) -> (r: Result<(), rusqlite::Error>) {
    conn.execute(
        "INSERT INTO projects (id, name, path, notes) VALUES (?1, ?2, ?3, ?4)",
        (id, name.as_str(), path.as_str(), notes.as_str()),
    )?;
    Ok(())
}

/// Relies on rusqlite::Connection::execute: rewrites one project row's
/// scalar attributes.
#[verifier::external_body]
fn sql_update_project(
    conn: &rusqlite::Connection,
    id: i64,
    name: &String,
    path: &String,
    notes: &String,
) -> (r: Result<(), rusqlite::Error>) {
    conn.execute(
        "UPDATE projects SET name = ?2, path = ?3, notes = ?4 WHERE id = ?1",
        (id, name.as_str(), path.as_str(), notes.as_str()),
    )?;
    Ok(())
}

/// Relies on rusqlite::Connection::execute: inserts one file row with an
/// explicit id.
#[verifier::external_body]
fn sql_insert_file(conn: &rusqlite::Connection, f: &ProjectFile) -> (r: Result<
    (),
    rusqlite::Error,
>) {
    conn.execute(
        "INSERT INTO project_files (id, path, notes, project_id, isdefault) VALUES (?1, ?2, ?3, ?4, ?5)",
        (f.id, f.path.as_str(), &f.notes, f.project_id, f.default),
    )?;
    Ok(())
}

/// Relies on rusqlite::Connection::execute: deletes one file row by id.
#[verifier::external_body]
fn sql_delete_file(conn: &rusqlite::Connection, id: i64) -> (r: Result<(), rusqlite::Error>) {
    conn.execute("DELETE FROM project_files WHERE id = ?1", (id,))?;
    Ok(())
}

/// Relies on rusqlite::Connection::execute: rewrites one file row's path,
/// notes and default flag.
#[verifier::external_body]
fn sql_update_file(conn: &rusqlite::Connection, f: &ProjectFile) -> (r: Result<
    (),
    rusqlite::Error,
>) {
    conn.execute(
        "UPDATE project_files SET path = ?2, notes = ?3, isdefault = ?4 WHERE id = ?1",
        (f.id, f.path.as_str(), &f.notes, f.default),
    )?;
    Ok(())
}

/// Relies on rusqlite::Connection::execute: clears the default flag on
/// every file of the project but the one being made the default.
#[verifier::external_body]
fn sql_clear_other_defaults(conn: &rusqlite::Connection, project_id: i64, keep_id: i64) -> (r:
    Result<(), rusqlite::Error>) {
    conn.execute(
        "UPDATE project_files SET isdefault = 0 WHERE project_id = ?1 AND id != ?2",
        (project_id, keep_id),
    )?;
    Ok(())
}

/// Relies on rusqlite::Connection::execute: inserts one tag row with an
/// explicit id.
#[verifier::external_body]
fn sql_insert_tag(conn: &rusqlite::Connection, id: i64, text: &String) -> (r: Result<
    (),
    rusqlite::Error,
>) {
    conn.execute("INSERT INTO tags (id, tag) VALUES (?1, ?2)", (id, text.as_str()))?;
    Ok(())
}

/// Relies on rusqlite::Connection::execute: inserts one project-to-tag
/// association row.
#[verifier::external_body]
fn sql_insert_link(conn: &rusqlite::Connection, project_id: i64, tag_id: i64) -> (r: Result<
    (),
    rusqlite::Error,
>) {
    conn.execute(
        "INSERT INTO projects_tags (project_id, tag_id) VALUES (?1, ?2)",
        (project_id, tag_id),
    )?;
    Ok(())
}

/// Relies on rusqlite::Connection::execute: deletes one project-to-tag
/// association row.
#[verifier::external_body]
fn sql_delete_link(conn: &rusqlite::Connection, project_id: i64, tag_id: i64) -> (r: Result<
    (),
    rusqlite::Error,
>) {
    conn.execute(
        "DELETE FROM projects_tags WHERE project_id = ?1 AND tag_id = ?2",
        (project_id, tag_id),
    )?;
    Ok(())
}

/// Relies on rusqlite::Connection::execute: inserts one source row with an
/// explicit id.
#[verifier::external_body]
fn sql_insert_source(conn: &rusqlite::Connection, s: &ProjectSource) -> (r: Result<
    (),
    rusqlite::Error,
>) {
    conn.execute(
        "INSERT INTO project_sources (id, url, project_id, name) VALUES (?1, ?2, ?3, ?4)",
        (s.id, s.url.as_str(), s.project_id, s.name.as_str()),
    )?;
    Ok(())
}

/// Relies on rusqlite::Connection::execute_batch: starts a transaction.
#[verifier::external_body]
fn sql_begin(conn: &rusqlite::Connection) -> (r: Result<(), rusqlite::Error>) {
    conn.execute_batch("BEGIN")
}

/// Relies on rusqlite::Connection::execute_batch: commits the open
/// transaction.
#[verifier::external_body]
fn sql_commit(conn: &rusqlite::Connection) -> (r: Result<(), rusqlite::Error>) {
    conn.execute_batch("COMMIT")
}

/// Relies on rusqlite::Connection::execute_batch: rolls the open
/// transaction back.
#[verifier::external_body]
fn sql_rollback(conn: &rusqlite::Connection) -> (r: Result<(), rusqlite::Error>) {
    conn.execute_batch("ROLLBACK")
}

/// Relies on rusqlite prepare/query_map: reads every project row.
#[verifier::external_body]
fn sql_load_projects(conn: &rusqlite::Connection) -> (r: Result<
    Vec<(i64, String, String, String)>,
    rusqlite::Error,
>) {
    let mut stmt = conn.prepare("SELECT id, name, path, notes FROM projects")?;
    let rows = stmt.query_map(
        (),
        |row| Ok((row.get(0)?, row.get(1)?, row.get(2)?, row.get(3)?)),
    )?;
    let mut out: Vec<(i64, String, String, String)> = Vec::new();
    for r in rows {
        out.push(r?);
    }
    Ok(out)
}

/// Relies on rusqlite prepare/query_map: reads every file row.
#[verifier::external_body]
fn sql_load_files(conn: &rusqlite::Connection) -> (r: Result<
    Vec<(i64, String, Option<String>, i64, bool)>,
    rusqlite::Error,
>) {
    let mut stmt = conn.prepare(
        "SELECT id, path, notes, project_id, isdefault FROM project_files",
    )?;
    let rows = stmt.query_map(
        (),
        |row| Ok((row.get(0)?, row.get(1)?, row.get(2)?, row.get(3)?, row.get(4)?)),
    )?;
    let mut out: Vec<(i64, String, Option<String>, i64, bool)> = Vec::new();
    for r in rows {
        out.push(r?);
    }
    Ok(out)
}

/// Relies on rusqlite prepare/query_map: reads every tag row.
#[verifier::external_body]
fn sql_load_tags(conn: &rusqlite::Connection) -> (r: Result<
    Vec<(i64, String)>,
    rusqlite::Error,
>) {
    let mut stmt = conn.prepare("SELECT id, tag FROM tags")?;
    let rows = stmt.query_map((), |row| Ok((row.get(0)?, row.get(1)?)))?;
    let mut out: Vec<(i64, String)> = Vec::new();
    for r in rows {
        out.push(r?);
    }
    Ok(out)
}

/// Relies on rusqlite prepare/query_map: reads every association row.
#[verifier::external_body]
fn sql_load_links(conn: &rusqlite::Connection) -> (r: Result<Vec<(i64, i64)>, rusqlite::Error>) {
    let mut stmt = conn.prepare("SELECT project_id, tag_id FROM projects_tags")?;
    let rows = stmt.query_map((), |row| Ok((row.get(0)?, row.get(1)?)))?;
    let mut out: Vec<(i64, i64)> = Vec::new();
    for r in rows {
        out.push(r?);
    }
    Ok(out)
}

/// Relies on rusqlite prepare/query_map: reads every source row.
#[verifier::external_body]
fn sql_load_sources(conn: &rusqlite::Connection) -> (r: Result<
    Vec<(i64, String, String, i64)>,
    rusqlite::Error,
>) {
    let mut stmt = conn.prepare("SELECT id, url, name, project_id FROM project_sources")?;
    let rows = stmt.query_map(
        (),
        |row| Ok((row.get(0)?, row.get(1)?, row.get(2)?, row.get(3)?)),
    )?;
    let mut out: Vec<(i64, String, String, i64)> = Vec::new();
    for r in rows {
        out.push(r?);
    }
    Ok(out)
}

/// The versions of the embedded migration scripts, ascending.
pub open spec fn migration_versions() -> Seq<i64> {
    seq![1i64]
}

/// The embedded migration script versions, ascending.
pub fn migration_version_list() -> (r: Vec<i64>)
    ensures
        r@ == migration_versions(),
{
    let mut v: Vec<i64> = Vec::new();
    v.push(1);
    proof {
        assert(v@ =~= migration_versions());
    }
    v
}

/// The "up" script of one migration version: the tables of the catalog.
pub fn migration_script(version: i64) -> &'static str {
    if version == 1 {
        "CREATE TABLE IF NOT EXISTS projects (id INTEGER PRIMARY KEY, name TEXT NOT NULL, path TEXT NOT NULL UNIQUE, notes TEXT NOT NULL DEFAULT '');\n        CREATE TABLE IF NOT EXISTS project_files (id INTEGER PRIMARY KEY, path TEXT NOT NULL, notes TEXT, project_id INTEGER NOT NULL, isdefault INTEGER NOT NULL DEFAULT 0);\n        CREATE TABLE IF NOT EXISTS tags (id INTEGER PRIMARY KEY, tag TEXT NOT NULL UNIQUE);\n        CREATE TABLE IF NOT EXISTS projects_tags (project_id INTEGER NOT NULL, tag_id INTEGER NOT NULL);\n        CREATE TABLE IF NOT EXISTS project_sources (id INTEGER PRIMARY KEY, url TEXT NOT NULL, project_id INTEGER NOT NULL, name TEXT NOT NULL);"
    } else {
        ""
    }
}

/// The versions, among `versions`, that a store at `current` still has to
/// apply, in the order given.
pub open spec fn due_versions(current: i64, versions: Seq<i64>) -> Seq<i64>
    decreases versions.len(),
{
    if versions.len() == 0 {
        Seq::empty()
    } else {
        let rest = due_versions(current, versions.drop_last());
        if versions.last() > current {
            rest.push(versions.last())
        } else {
            rest
        }
    }
}

/// Selects the migration versions that exceed the recorded version, in
/// script order.
pub fn versions_due(current: i64, versions: &Vec<i64>) -> (r: Vec<i64>)
    ensures
        r@ == due_versions(current, versions@),
{
    let n: usize = versions.len();
    let mut out: Vec<i64> = Vec::new();
    let mut i: usize = 0;
    while i < n
        invariant
            n == versions@.len(),
            i <= n,
            out@ == due_versions(current, versions@.take(i as int)),
        decreases n - i,
    {
        proof {
            assert(versions@.take(i + 1).drop_last() =~= versions@.take(i as int));
            assert(versions@.take(i + 1).last() == versions@[i as int]);
        }
        if versions[i] > current {
            out.push(versions[i]);
        }
        i += 1;
    }
    proof {
        assert(versions@.take(n as int) =~= versions@);
    }
    out
}

/// The storage engine: the sole owner of the database connection, and the
/// in-memory catalog it mirrors. Queries are answered from the catalog;
/// mutations update the catalog (verified) and write the same rows through
/// to the database (trusted statement wrappers). A database error can
/// leave the database behind the catalog; it is reported to the caller.
pub struct DbManager {
    pub conn: rusqlite::Connection,
    pub catalog: Catalog,
}

impl DbManager {
    /// Opens (or creates) the database file and starts from an empty
    /// catalog; `run_migration` then creates the tables and `load` fills
    /// the catalog from them.
    pub fn new(connection_string: String) -> (r: Result<DbManager, StoreError>)
        ensures
            match r {
                Ok(d) => {
                    &&& d.catalog.wf()
                    &&& d.catalog.projects@.len() == 0
                    &&& d.catalog.files@.len() == 0
                    &&& d.catalog.tags@.len() == 0
                    &&& d.catalog.links@.len() == 0
                    &&& d.catalog.sources@.len() == 0
                },
                Err(e) => e is Db,
            },
    {
        let conn = match open_db(connection_string.as_str()) {
            Ok(c) => c,
            Err(e) => {
                return Err(db_err(e));
            },
        };
        match exec_batch(
            &conn,
            "CREATE TABLE IF NOT EXISTS _migrations (version VARCHAR(50) NOT NULL, run_on TIMESTAMP DEFAULT CURRENT_TIMESTAMP NOT NULL)",
        ) {
            Ok(_) => {},
            Err(e) => {
                return Err(db_err(e));
            },
        }
        Ok(DbManager { conn, catalog: Catalog::new() })
    }

    /// Applies, in ascending order, every embedded migration script whose
    /// version exceeds the last version recorded in the ledger, recording
    /// each version right after its script ran. Returns the recorded
    /// version it started from and the versions it applied.
    pub fn run_migration(&self) -> (r: Result<(i64, Vec<i64>), StoreError>)
        ensures
            match r {
                Ok((current, applied)) => applied@ == due_versions(current, migration_versions()),
                Err(e) => e is Db,
            },
    {
        let current = match query_version(&self.conn) {
            Ok(v) => v,
            Err(e) => {
                return Err(db_err(e));
            },
        };
        let versions = migration_version_list();
        let due = versions_due(current, &versions);
        let n: usize = due.len();
        let mut i: usize = 0;
        while i < n
            invariant
                n == due@.len(),
                i <= n,
            decreases n - i,
        {
            let v = due[i];
            match exec_batch(&self.conn, migration_script(v)) {
                Ok(_) => {},
                Err(e) => {
                    return Err(db_err(e));
                },
            }
            match record_migration(&self.conn, v) {
                Ok(_) => {},
                Err(e) => {
                    return Err(db_err(e));
                },
            }
            i += 1;
        }
        Ok((current, due))
    }

    /// Replaces the in-memory catalog with the rows read from the
    /// database, carried over one for one by the verified
    /// `Catalog::from_rows`, which validates every table rule on them;
    /// inconsistent rows are rejected as `Corrupt` and the catalog is left
    /// as it was. What the rows say is decided by the database file, so no
    /// more than well-formedness can be promised of the result.
    pub fn load(&mut self) -> (r: Result<(), StoreError>)
        ensures
            final(self).catalog.wf() || final(self).catalog == old(self).catalog,
            r is Ok ==> final(self).catalog.wf(),
            r is Err ==> final(self).catalog == old(self).catalog,
    {
        let prows = match sql_load_projects(&self.conn) {
            Ok(v) => v,
            Err(e) => {
                return Err(db_err(e));
            },
        };
        let frows = match sql_load_files(&self.conn) {
            Ok(v) => v,
            Err(e) => {
                return Err(db_err(e));
            },
        };
        let trows = match sql_load_tags(&self.conn) {
            Ok(v) => v,
            Err(e) => {
                return Err(db_err(e));
            },
        };
        let lrows = match sql_load_links(&self.conn) {
            Ok(v) => v,
            Err(e) => {
                return Err(db_err(e));
            },
        };
        let srows = match sql_load_sources(&self.conn) {
            Ok(v) => v,
            Err(e) => {
                return Err(db_err(e));
            },
        };
        match Catalog::from_rows(&prows, &frows, &trows, &lrows, &srows) {
            Ok(c) => {
                self.catalog = c;
                Ok(())
            },
            Err(e) => Err(e),
        }
    }

    /// Loads a project by id, with its files, tags and sources. A missing
    /// row is a recoverable `NotFound`.
    pub fn get_project(&self, id: i64) -> (r: Result<Project, StoreError>)
        ensures
            match r {
                Ok(p) => self.catalog.loaded_project(id, p),
                Err(e) => e is NotFound && !self.catalog.project_exists(id),
            },
    {
        self.catalog.get_project(id)
    }

    /// The projects that satisfy every given filter (name substring, exact
    /// path, and association with every tag of the set), each loaded with
    /// its children.
    pub fn get_filtered_projects(
        &self,
        name: Option<String>,
        path: Option<String>,
        tags: Option<Vec<ProjectTag>>,
    ) -> (r: Result<Vec<Project>, StoreError>)
        ensures
            match r {
                Ok(ps) => ps@.len() == self.catalog.matching_rows(
                    self.catalog.projects@,
                    name,
                    path,
                    tags,
                ).len() && self.catalog.sorted_hydration_of(
                    ps@,
                    self.catalog.matching_rows(self.catalog.projects@, name, path, tags),
                ),
                Err(e) => false,
            },
    {
        Ok(self.catalog.get_filtered_projects(name, path, tags))
    }

    /// A project with exactly this path is cataloged. Answered through the
    /// same filter composer the browse queries use, with a path-only
    /// filter.
    pub fn does_project_with_path_exist(&self, project_path: String) -> (r: bool)
        ensures
            r == self.catalog.has_project_path(project_path@),
    {
        let wanted = project_path.clone();
        let results = self.catalog.get_filtered_projects(None, Some(project_path), None);
        proof {
            crate::catalog::lemma_matching_rows_path_only(
                self.catalog,
                self.catalog.projects@,
                wanted,
            );
        }
        results.len() > 0
    }

    /// Creates a project from the given aggregate's scalar attributes and
    /// writes the new row through to the database. A second project with
    /// the same path is refused as `Duplicate`.
    pub fn create_project(&mut self, project: Project) -> (r: Result<Project, StoreError>)
        requires
            old(self).catalog.wf(),
        ensures
            final(self).catalog.wf(),
            match r {
                Ok(p) => {
                    &&& final(self).catalog.projects@ == old(self).catalog.projects@.push(
                        ProjectRow {
                            id: old(self).catalog.next_id,
                            name: project.name,
                            path: project.path,
                            notes: project.notes,
                        },
                    )
                    &&& final(self).catalog.files@ == old(self).catalog.files@
                    &&& final(self).catalog.tags@ == old(self).catalog.tags@
                    &&& final(self).catalog.links@ == old(self).catalog.links@
                    &&& final(self).catalog.sources@ == old(self).catalog.sources@
                    &&& p.id == old(self).catalog.next_id
                    &&& p.name@ == project.name@
                    &&& p.path@ == project.path@
                    &&& p.notes@ == project.notes@
                    &&& p.files@.len() == 0
                    &&& p.tags@.len() == 0
                    &&& p.sources@.len() == 0
                    &&& final(self).catalog.has_project_path(project.path@)
                },
                Err(e) => {
                    &&& (e is Duplicate <==> old(self).catalog.has_project_path(project.path@))
                    &&& (e is IdSpace <==> !old(self).catalog.has_project_path(project.path@)
                        && old(self).catalog.next_id == i64::MAX)
                    &&& (e is Duplicate || e is IdSpace ==> final(self).catalog == old(
                        self,
                    ).catalog)
                    &&& (e is Db ==> final(self).catalog.projects@ == old(
                        self,
                    ).catalog.projects@.push(
                        ProjectRow {
                            id: old(self).catalog.next_id,
                            name: project.name,
                            path: project.path,
                            notes: project.notes,
                        },
                    ) && final(self).catalog.files@ == old(self).catalog.files@ && final(self).catalog.tags@ == old(self).catalog.tags@ && final(self).catalog.links@ == old(
                        self,
                    ).catalog.links@ && final(self).catalog.sources@ == old(self).catalog.sources@)
                    &&& (e is Duplicate || e is IdSpace || e is Db)
                },
            },
    {
        let created = match self.catalog.create_project(&project) {
            Ok(p) => p,
            Err(e) => {
                return Err(e);
            },
        };
        match sql_insert_project(&self.conn, created.id, &created.name, &created.path, &created.notes) {
            Ok(_) => Ok(created),
            Err(e) => Err(db_err(e)),
        }
    }

    /// Persists a project's name, path and notes and returns the reloaded
    /// aggregate; the row is rewritten in the database as well.
    pub fn update_project(&mut self, project: &Project) -> (r: Result<Project, StoreError>)
        requires
            old(self).catalog.wf(),
        ensures
            final(self).catalog.wf(),
            final(self).catalog.files@ == old(self).catalog.files@,
            final(self).catalog.tags@ == old(self).catalog.tags@,
            final(self).catalog.links@ == old(self).catalog.links@,
            final(self).catalog.sources@ == old(self).catalog.sources@,
            (r is Ok || (r matches Err(e) && e is Db)) ==> exists|i: int|
                0 <= i < old(self).catalog.projects@.len() && (#[trigger] old(
                    self,
                ).catalog.projects@[i]).id == project.id && final(self).catalog.projects@ == old(
                    self,
                ).catalog.projects@.update(
                    i,
                    ProjectRow {
                        id: project.id,
                        name: project.name,
                        path: project.path,
                        notes: project.notes,
                    },
                ),
            match r {
                Ok(p) => {
                    &&& final(self).catalog.project_exists(project.id)
                    &&& p.id == project.id
                    &&& p.name@ == project.name@
                    &&& p.path@ == project.path@
                    &&& p.notes@ == project.notes@
                },
                Err(e) => {
                    &&& (e is NotFound <==> !old(self).catalog.project_exists(project.id))
                    &&& (e is Duplicate <==> old(self).catalog.project_exists(project.id) && old(
                        self,
                    ).catalog.path_taken_by_other(project.path@, project.id))
                    &&& (e is NotFound || e is Duplicate ==> final(self).catalog == old(
                        self,
                    ).catalog)
                    &&& (e is NotFound || e is Duplicate || e is Db)
                },
            },
    {
        let updated = match self.catalog.update_project(project) {
            Ok(p) => p,
            Err(e) => {
                return Err(e);
            },
        };
        proof {
            let row = ProjectRow {
                id: project.id,
                name: project.name,
                path: project.path,
                notes: project.notes,
            };
            let w = choose|w: int|
                0 <= w < old(self).catalog.projects@.len() && (#[trigger] old(
                    self,
                ).catalog.projects@[w]).id == project.id && self.catalog.projects@ == old(
                    self,
                ).catalog.projects@.update(w, row);
            assert(self.catalog.projects@[w].id == project.id);
        }
        match sql_update_project(&self.conn, updated.id, &updated.name, &updated.path, &updated.notes) {
            Ok(_) => Ok(updated),
            Err(e) => Err(db_err(e)),
        }
    }

    /// The reconciliation primitive: makes the project's known-file set
    /// equal to the live path set, inserting fresh rows for new paths and
    /// deleting rows whose path is gone, in the catalog and the database
    /// alike; the database rows are applied inside one transaction per
    /// project, rolled back on failure. The report says what changed; it is
    /// empty when store and filesystem already agreed, and nothing is then
    /// written.
    pub fn update_project_files(&mut self, project: &Project, file_system_files: Vec<String>) -> (r:
        Result<SyncReport, StoreError>)
        requires
            old(self).catalog.wf(),
        ensures
            final(self).catalog.wf(),
            final(self).catalog.projects@ == old(self).catalog.projects@,
            final(self).catalog.tags@ == old(self).catalog.tags@,
            final(self).catalog.links@ == old(self).catalog.links@,
            final(self).catalog.sources@ == old(self).catalog.sources@,
            old(self).catalog.project_exists(project.id) && (forall|p: Seq<char>|
                #![trigger old(self).catalog.has_file_path(project.id, p)]
                #![trigger live_contains(file_system_files@, p)]
                old(self).catalog.has_file_path(project.id, p) <==> live_contains(
                    file_system_files@,
                    p,
                )) ==> r is Ok,
            (r is Ok || (r matches Err(e) && e is Db)) ==> exists|
                added: Seq<ProjectFile>,
                removed: Seq<ProjectFile>,
            |
                #[trigger] files_synced(
                    old(self).catalog,
                    final(self).catalog,
                    project.id,
                    file_system_files@,
                    added,
                    removed,
                ),
            match r {
                Ok(rep) => files_synced(
                    old(self).catalog,
                    final(self).catalog,
                    project.id,
                    file_system_files@,
                    rep.added@,
                    rep.removed@,
                ),
                Err(e) => {
                    &&& (e is NotFound <==> !old(self).catalog.project_exists(project.id))
                    &&& (e is IdSpace ==> old(self).catalog.next_id + file_system_files@.len()
                        > i64::MAX)
                    &&& (e is NotFound || e is IdSpace ==> final(self).catalog == old(
                        self,
                    ).catalog)
                    &&& (e is NotFound || e is IdSpace || e is Db)
                },
            },
    {
        let rep = match self.catalog.update_project_files(project.id, &file_system_files) {
            Ok(rep) => rep,
            Err(e) => {
                return Err(e);
            },
        };
        let ghost synced = self.catalog;
        if rep.removed.len() == 0 && rep.added.len() == 0 {
            return Ok(rep);
        }
        match sql_begin(&self.conn) {
            Ok(_) => {},
            Err(e) => {
                return Err(db_err(e));
            },
        }
        let nr: usize = rep.removed.len();
        let mut i: usize = 0;
        while i < nr
            invariant
                self.catalog == synced,
                self.catalog.wf(),
                self.catalog.projects@ == old(self).catalog.projects@,
                self.catalog.tags@ == old(self).catalog.tags@,
                self.catalog.links@ == old(self).catalog.links@,
                self.catalog.sources@ == old(self).catalog.sources@,
                old(self).catalog.project_exists(project.id),
                files_synced(
                    old(self).catalog,
                    self.catalog,
                    project.id,
                    file_system_files@,
                    rep.added@,
                    rep.removed@,
                ),
                nr == rep.removed@.len(),
                i <= nr,
            decreases nr - i,
        {
            match sql_delete_file(&self.conn, rep.removed[i].id) {
                Ok(_) => {},
                Err(e) => {
                    match sql_rollback(&self.conn) {
                        Ok(_) => {},
                        Err(_) => {},
                    }
                    return Err(db_err(e));
                },
            }
            i += 1;
        }
        let na: usize = rep.added.len();
        let mut k: usize = 0;
        while k < na
            invariant
                self.catalog == synced,
                self.catalog.wf(),
                self.catalog.projects@ == old(self).catalog.projects@,
                self.catalog.tags@ == old(self).catalog.tags@,
                self.catalog.links@ == old(self).catalog.links@,
                self.catalog.sources@ == old(self).catalog.sources@,
                old(self).catalog.project_exists(project.id),
                files_synced(
                    old(self).catalog,
                    self.catalog,
                    project.id,
                    file_system_files@,
                    rep.added@,
                    rep.removed@,
                ),
                na == rep.added@.len(),
                k <= na,
            decreases na - k,
        {
            match sql_insert_file(&self.conn, &rep.added[k]) {
                Ok(_) => {},
                Err(e) => {
                    match sql_rollback(&self.conn) {
                        Ok(_) => {},
                        Err(_) => {},
                    }
                    return Err(db_err(e));
                },
            }
            k += 1;
        }
        match sql_commit(&self.conn) {
            Ok(_) => {},
            Err(e) => {
                match sql_rollback(&self.conn) {
                    Ok(_) => {},
                    Err(_) => {},
                }
                return Err(db_err(e));
            },
        }
        Ok(rep)
    }

    /// Persists a file's path, notes and default flag. Making a file the
    /// default clears the flag on every other file of its project first,
    /// in the catalog and the database alike; the clear and the write run
    /// inside one transaction, so a failure partway cannot leave two files
    /// marked default on disk. At most one file per project is ever the
    /// default.
    pub fn update_project_file(&mut self, file: &ProjectFile) -> (r: Result<
        ProjectFile,
        StoreError,
    >)
        requires
            old(self).catalog.wf(),
        ensures
            final(self).catalog.wf(),
            final(self).catalog.projects@ == old(self).catalog.projects@,
            final(self).catalog.tags@ == old(self).catalog.tags@,
            final(self).catalog.links@ == old(self).catalog.links@,
            final(self).catalog.sources@ == old(self).catalog.sources@,
            r is Ok <==> old(self).catalog.file_exists(file.id)
                && !old(self).catalog.file_update_conflicts(*file) && !(r matches Err(e2)
                && e2 is Db),
            (r is Ok || (r matches Err(e) && e is Db)) ==> final(self).catalog.files@.len() == old(
                self,
            ).catalog.files@.len() && exists|i: int|
                0 <= i < old(self).catalog.files@.len() && (#[trigger] old(
                    self,
                ).catalog.files@[i]).id == file.id && final(self).catalog.files@[i] == (ProjectFile {
                    id: file.id,
                    path: file.path,
                    notes: file.notes,
                    project_id: old(self).catalog.files@[i].project_id,
                    default: file.default,
                }) && forall|j: int|
                    0 <= j < old(self).catalog.files@.len() && j != i
                        ==> #[trigger] final(self).catalog.files@[j] == Catalog::cleared_row(
                        old(self).catalog.files@[j],
                        file.default && old(self).catalog.files@[j].project_id == old(
                            self,
                        ).catalog.files@[i].project_id,
                    ),
            match r {
                Ok(out) => {
                    &&& out.id == file.id
                    &&& out.path@ == file.path@
                    &&& out.default == file.default
                    &&& final(self).catalog.file_exists(file.id)
                    &&& (file.default ==> forall|j: int|
                        0 <= j < final(self).catalog.files@.len() && (#[trigger] final(self).catalog.files@[j]).project_id == out.project_id && final(self).catalog.files@[j].id != file.id ==> !final(self).catalog.files@[j].default)
                },
                Err(e) => {
                    &&& (e is NotFound <==> !old(self).catalog.file_exists(file.id))
                    &&& (e is Duplicate <==> old(self).catalog.file_update_conflicts(*file))
                    &&& (e is NotFound || e is Duplicate ==> final(self).catalog == old(
                        self,
                    ).catalog)
                    &&& (e is NotFound || e is Duplicate || e is Db)
                },
            },
    {
        let out = match self.catalog.update_project_file(file) {
            Ok(out) => out,
            Err(e) => {
                return Err(e);
            },
        };
        proof {
            let w = choose|w: int|
                0 <= w < old(self).catalog.files@.len() && (#[trigger] old(
                    self,
                ).catalog.files@[w]).id == file.id && out == ProjectFile {
                    id: file.id,
                    path: file.path,
                    notes: file.notes,
                    project_id: old(self).catalog.files@[w].project_id,
                    default: file.default,
                };
            assert(self.catalog.files@[w].id == file.id);
        }
        if file.default {
            match sql_begin(&self.conn) {
                Ok(_) => {},
                Err(e) => {
                    return Err(db_err(e));
                },
            }
            match sql_clear_other_defaults(&self.conn, out.project_id, out.id) {
                Ok(_) => {},
                Err(e) => {
                    match sql_rollback(&self.conn) {
                        Ok(_) => {},
                        Err(_) => {},
                    }
                    return Err(db_err(e));
                },
            }
            match sql_update_file(&self.conn, &out) {
                Ok(_) => {},
                Err(e) => {
                    match sql_rollback(&self.conn) {
                        Ok(_) => {},
                        Err(_) => {},
                    }
                    return Err(db_err(e));
                },
            }
            match sql_commit(&self.conn) {
                Ok(_) => Ok(out),
                Err(e) => {
                    match sql_rollback(&self.conn) {
                        Ok(_) => {},
                        Err(_) => {},
                    }
                    Err(db_err(e))
                },
            }
        } else {
            match sql_update_file(&self.conn, &out) {
                Ok(_) => Ok(out),
                Err(e) => Err(db_err(e)),
            }
        }
    }

    /// Looks a tag up by its exact text, inserting it when absent: the same
    /// text always yields the same tag row, and no duplicate tag row is
    /// ever created.
    pub fn get_or_create_tag(&mut self, text: String) -> (r: Result<ProjectTag, StoreError>)
        requires
            old(self).catalog.wf(),
        ensures
            final(self).catalog.wf(),
            final(self).catalog.projects@ == old(self).catalog.projects@,
            final(self).catalog.files@ == old(self).catalog.files@,
            final(self).catalog.links@ == old(self).catalog.links@,
            final(self).catalog.sources@ == old(self).catalog.sources@,
            old(self).catalog.has_tag_text(text@) ==> r is Ok,
            (r matches Err(e) && e is IdSpace) <==> (!old(self).catalog.has_tag_text(text@)
                && old(self).catalog.next_id == i64::MAX),
            (r matches Err(e) && e is Db) ==> !old(self).catalog.has_tag_text(text@) && exists|
                t2: ProjectTag,
            |
                #![trigger old(self).catalog.tags@.push(t2)]
                final(self).catalog.tags@ == old(self).catalog.tags@.push(t2) && t2.tag@ == text@
                    && t2.id == old(self).catalog.next_id,
            match r {
                Ok(t) => {
                    &&& t.tag@ == text@
                    &&& final(self).catalog.tags@.contains(t)
                    &&& final(self).catalog.has_tag_text(text@)
                    &&& (old(self).catalog.has_tag_text(text@) ==> final(self).catalog.tags@ == old(
                        self,
                    ).catalog.tags@ && old(self).catalog.tags@.contains(t))
                    &&& (!old(self).catalog.has_tag_text(text@) ==> final(self).catalog.tags@
                        == old(self).catalog.tags@.push(t) && t.id == old(self).catalog.next_id)
                },
                Err(e) => e is IdSpace || e is Db,
            },
    {
        let (t, created) = match self.catalog.get_or_create_tag(&text) {
            Ok(x) => x,
            Err(e) => {
                return Err(e);
            },
        };
        if created {
            match sql_insert_tag(&self.conn, t.id, &text) {
                Ok(_) => {},
                Err(e) => {
                    proof {
                        assert(self.catalog.tags@ == old(self).catalog.tags@.push(t));
                    }
                    return Err(db_err(e));
                },
            }
        }
        Ok(t)
    }

    /// Attaches a tag, by text, to a project: the tag row is created only
    /// when its text is new, and the association only when it is not
    /// already present (tagging twice changes nothing). Returns the
    /// reloaded project.
    pub fn add_tag_to_project(&mut self, project_id: i64, text: String) -> (r: Result<
        Project,
        StoreError,
    >)
        requires
            old(self).catalog.wf(),
        ensures
            final(self).catalog.wf(),
            final(self).catalog.projects@ == old(self).catalog.projects@,
            final(self).catalog.files@ == old(self).catalog.files@,
            final(self).catalog.sources@ == old(self).catalog.sources@,
            final(self).catalog.tags@ == old(self).catalog.tags@ || (exists|t2: ProjectTag|
                #![trigger old(self).catalog.tags@.push(t2)]
                final(self).catalog.tags@ == old(self).catalog.tags@.push(t2) && t2.tag@ == text@),
            final(self).catalog.links@ == old(self).catalog.links@ || (exists|l: TagLink|
                #![trigger old(self).catalog.links@.push(l)]
                final(self).catalog.links@ == old(self).catalog.links@.push(l) && l.project_id
                    == project_id && (exists|i: int|
                    0 <= i < final(self).catalog.tags@.len() && (#[trigger] final(self).catalog.tags@[i]).tag@
                        == text@ && l.tag_id == final(self).catalog.tags@[i].id)),
            (old(self).catalog.project_exists(project_id) && (exists|i: int|
                0 <= i < old(self).catalog.tags@.len() && (#[trigger] old(self).catalog.tags@[i]).tag@
                    == text@ && old(self).catalog.has_link(
                    project_id,
                    old(self).catalog.tags@[i].id,
                ))) ==> r is Ok,
            match r {
                Ok(p) => {
                    &&& p.id == project_id
                    &&& final(self).catalog.has_tag_text(text@)
                    &&& exists|i: int|
                        0 <= i < final(self).catalog.tags@.len() && (#[trigger] final(self).catalog.tags@[i]).tag@ == text@ && final(self).catalog.has_link(
                            project_id,
                            final(self).catalog.tags@[i].id,
                        )
                    &&& p.tags@ == tags_of(
                        final(self).catalog.tags@,
                        final(self).catalog.links@,
                        project_id,
                    )
                },
                Err(e) => {
                    &&& (e is NotFound <==> !old(self).catalog.project_exists(project_id))
                    &&& (e is IdSpace ==> !old(self).catalog.has_tag_text(text@) && old(
                        self,
                    ).catalog.next_id == i64::MAX)
                    &&& (e is NotFound || e is IdSpace || e is Db)
                },
            },
    {
        if self.catalog.find_project_by_id(project_id).is_none() {
            return Err(StoreError::NotFound);
        }
        let (t, created) = match self.catalog.get_or_create_tag(&text) {
            Ok(x) => x,
            Err(e) => {
                proof {
                    if exists|i: int|
                        0 <= i < old(self).catalog.tags@.len() && (#[trigger] old(
                            self,
                        ).catalog.tags@[i]).tag@ == text@ {
                        let w = choose|w: int|
                            0 <= w < old(self).catalog.tags@.len() && (#[trigger] old(
                                self,
                            ).catalog.tags@[w]).tag@ == text@;
                        assert(old(self).catalog.has_tag_text(text@));
                    }
                }
                return Err(e);
            },
        };
        if created {
            match sql_insert_tag(&self.conn, t.id, &text) {
                Ok(_) => {},
                Err(e) => {
                    proof {
                        assert(self.catalog.tags@ == old(self).catalog.tags@.push(t));
                        if exists|i: int|
                            0 <= i < old(self).catalog.tags@.len() && (#[trigger] old(
                                self,
                            ).catalog.tags@[i]).tag@ == text@ {
                            let w = choose|w: int|
                                0 <= w < old(self).catalog.tags@.len() && (#[trigger] old(
                                    self,
                                ).catalog.tags@[w]).tag@ == text@;
                            assert(old(self).catalog.has_tag_text(text@));
                        }
                    }
                    return Err(db_err(e));
                },
            }
        }
        let ghost c1 = self.catalog;
        proof {
            crate::catalog::lemma_project_exists_transfer(
                old(self).catalog,
                self.catalog,
                project_id,
            );
            let w = choose|w: int| 0 <= w < c1.tags@.len() && c1.tags@[w] == t;
            assert(c1.tags@[w].id == t.id);
            assert(c1.tag_exists(t.id));
        }
        let added = match self.catalog.add_link(project_id, t.id) {
            Ok(a) => a,
            Err(e) => {
                proof {
                    assert(false);
                }
                return Err(e);
            },
        };
        if added {
            match sql_insert_link(&self.conn, project_id, t.id) {
                Ok(_) => {},
                Err(e) => {
                    proof {
                        assert(self.catalog.links@ == old(self).catalog.links@.push(
                            TagLink { project_id, tag_id: t.id },
                        ));
                        assert(c1.tags@.contains(t));
                        let wt = choose|wt: int| 0 <= wt < c1.tags@.len() && c1.tags@[wt] == t;
                        assert(self.catalog.tags@[wt].tag@ == text@ && (TagLink {
                            project_id,
                            tag_id: t.id,
                        }).tag_id == self.catalog.tags@[wt].id);
                        if exists|i: int|
                            0 <= i < old(self).catalog.tags@.len() && (#[trigger] old(
                                self,
                            ).catalog.tags@[i]).tag@ == text@ && old(self).catalog.has_link(
                                project_id,
                                old(self).catalog.tags@[i].id,
                            ) {
                            let w = choose|w: int|
                                0 <= w < old(self).catalog.tags@.len() && (#[trigger] old(
                                    self,
                                ).catalog.tags@[w]).tag@ == text@ && old(self).catalog.has_link(
                                    project_id,
                                    old(self).catalog.tags@[w].id,
                                );
                            assert(old(self).catalog.has_tag_text(text@));
                            assert(!created);
                            assert(old(self).catalog.tags@.contains(t));
                            assert(old(self).catalog.tags@.contains(old(self).catalog.tags@[w]));
                            lemma_tag_text_identity(
                                old(self).catalog,
                                t,
                                old(self).catalog.tags@[w],
                            );
                            assert(false);
                        }
                    }
                    return Err(db_err(e));
                },
            }
        }
        proof {
            crate::catalog::lemma_project_exists_transfer(c1, self.catalog, project_id);
            let w = choose|w: int| 0 <= w < c1.tags@.len() && c1.tags@[w] == t;
            assert(self.catalog.tags@[w].tag@ == text@ && self.catalog.tags@[w].id == t.id);
            if added {
                assert(self.catalog.links@ == old(self).catalog.links@.push(
                    TagLink { project_id, tag_id: t.id },
                ));
                assert((TagLink { project_id, tag_id: t.id }).tag_id
                    == self.catalog.tags@[w].id);
            }
        }
        match self.catalog.get_project(project_id) {
            Ok(p) => Ok(p),
            Err(_) => {
                proof {
                    assert(false);
                }
                Err(StoreError::NotFound)
            },
        }
    }

    /// Deletes the association between a project and a tag; the tag row
    /// itself stays and can be attached again or to other projects.
    /// Returns the reloaded project.
    pub fn remove_tag_from_project(&mut self, project_id: i64, tag: &ProjectTag) -> (r: Result<
        Project,
        StoreError,
    >)
        requires
            old(self).catalog.wf(),
        ensures
            final(self).catalog.wf(),
            final(self).catalog.projects@ == old(self).catalog.projects@,
            final(self).catalog.files@ == old(self).catalog.files@,
            final(self).catalog.tags@ == old(self).catalog.tags@,
            final(self).catalog.sources@ == old(self).catalog.sources@,
            forall|l: TagLink| #[trigger]
                final(self).catalog.links@.contains(l) ==> old(self).catalog.links@.contains(l),
            (old(self).catalog.project_exists(project_id) && !old(self).catalog.has_link(
                project_id,
                tag.id,
            )) ==> r is Ok,
            (r is Ok || (r matches Err(e) && e is Db)) ==> !final(self).catalog.has_link(
                project_id,
                tag.id,
            ),
            match r {
                Ok(p) => {
                    &&& p.id == project_id
                    &&& !final(self).catalog.has_link(project_id, tag.id)
                    &&& p.tags@ == tags_of(
                        final(self).catalog.tags@,
                        final(self).catalog.links@,
                        project_id,
                    )
                    &&& forall|l: TagLink|
                        #[trigger] old(self).catalog.links@.contains(l) && l != (TagLink {
                            project_id,
                            tag_id: tag.id,
                        }) ==> final(self).catalog.links@.contains(l)
                },
                Err(e) => {
                    &&& (e is NotFound <==> !old(self).catalog.project_exists(project_id))
                    &&& (e is NotFound || e is Db)
                },
            },
    {
        if self.catalog.find_project_by_id(project_id).is_none() {
            return Err(StoreError::NotFound);
        }
        let had = self.catalog.remove_link(project_id, tag.id);
        if had {
            match sql_delete_link(&self.conn, project_id, tag.id) {
                Ok(_) => {},
                Err(e) => {
                    return Err(db_err(e));
                },
            }
        }
        proof {
            crate::catalog::lemma_project_exists_transfer(
                old(self).catalog,
                self.catalog,
                project_id,
            );
        }
        match self.catalog.get_project(project_id) {
            Ok(p) => Ok(p),
            Err(_) => {
                proof {
                    assert(false);
                }
                Err(StoreError::NotFound)
            },
        }
    }

    /// All tag rows, ordered by text.
    pub fn list_all_tags(&self) -> (r: Vec<ProjectTag>)
        ensures
            r@.to_multiset() == self.catalog.tags@.to_multiset(),
            crate::catalog::sorted_by_tag_text(r@),
    {
        self.catalog.list_all_tags()
    }

    /// Appends a named external URL reference to a project and returns the
    /// reloaded project.
    pub fn add_source(&mut self, project_id: i64, name: String, url: String) -> (r: Result<
        Project,
        StoreError,
    >)
        requires
            old(self).catalog.wf(),
        ensures
            final(self).catalog.wf(),
            final(self).catalog.projects@ == old(self).catalog.projects@,
            final(self).catalog.files@ == old(self).catalog.files@,
            final(self).catalog.tags@ == old(self).catalog.tags@,
            final(self).catalog.links@ == old(self).catalog.links@,
            match r {
                Ok(p) => {
                    &&& p.id == project_id
                    &&& exists|s: ProjectSource|
                        final(self).catalog.sources@ == old(self).catalog.sources@.push(s)
                            && s.name@ == name@ && s.url@ == url@ && s.project_id == project_id
                    &&& p.sources@ == sources_of(final(self).catalog.sources@, project_id)
                },
                Err(e) => {
                    &&& (e is NotFound <==> !old(self).catalog.project_exists(project_id))
                    &&& (e is IdSpace <==> old(self).catalog.project_exists(project_id) && old(
                        self,
                    ).catalog.next_id == i64::MAX)
                    &&& (e is Db ==> exists|sx: ProjectSource|
                        #![trigger old(self).catalog.sources@.push(sx)]
                        final(self).catalog.sources@ == old(self).catalog.sources@.push(sx)
                            && sx.name@ == name@ && sx.url@ == url@ && sx.project_id == project_id)
                    &&& (e is NotFound || e is IdSpace || e is Db)
                },
            },
    {
        let s = match self.catalog.add_source(project_id, &name, &url) {
            Ok(s) => s,
            Err(e) => {
                return Err(e);
            },
        };
        match sql_insert_source(&self.conn, &s) {
            Ok(_) => {},
            Err(e) => {
                proof {
                    assert(self.catalog.sources@ == old(self).catalog.sources@.push(s));
                }
                return Err(db_err(e));
            },
        }
        proof {
            crate::catalog::lemma_project_exists_transfer(
                old(self).catalog,
                self.catalog,
                project_id,
            );
        }
        match self.catalog.get_project(project_id) {
            Ok(p) => Ok(p),
            Err(_) => {
                proof {
                    assert(false);
                }
                Err(StoreError::NotFound)
            },
        }
    }

    /// Reconciles one watched root: every immediate subdirectory whose
    /// path is not yet cataloged becomes a new project, written through to
    /// the database. Running it again with no filesystem change creates
    /// nothing. Returns the created projects, whose file lists the caller
    /// still has to reconcile.
    pub fn scan_project_dir(&mut self, entries: &Vec<FsEntry>) -> (r: Result<
        Vec<Project>,
        StoreError,
    >)
        requires
            old(self).catalog.wf(),
        ensures
            final(self).catalog.wf(),
            final(self).catalog.files@ == old(self).catalog.files@,
            final(self).catalog.tags@ == old(self).catalog.tags@,
            final(self).catalog.links@ == old(self).catalog.links@,
            final(self).catalog.sources@ == old(self).catalog.sources@,
            (forall|p: Seq<char>|
                #[trigger] dir_path_in(entries@, p) ==> old(self).catalog.has_project_path(p))
                ==> r is Ok,
            (r is Ok || (r matches Err(e) && e is Db)) ==> exists|created: Seq<Project>|
                #[trigger] reconciled(old(self).catalog, final(self).catalog, entries@, created),
            match r {
                Ok(created) => reconciled(
                    old(self).catalog,
                    final(self).catalog,
                    entries@,
                    created@,
                ),
                Err(e) => {
                    &&& (e is IdSpace ==> old(self).catalog.next_id + entries@.len() > i64::MAX)
                    &&& (e is IdSpace || e is Db)
                },
            },
    {
        let created = match self.catalog.reconcile_dirs(entries) {
            Ok(c) => c,
            Err(e) => {
                return Err(e);
            },
        };
        let ghost done = self.catalog;
        let n: usize = created.len();
        let mut i: usize = 0;
        while i < n
            invariant
                self.catalog == done,
                self.catalog.wf(),
                self.catalog.files@ == old(self).catalog.files@,
                self.catalog.tags@ == old(self).catalog.tags@,
                self.catalog.links@ == old(self).catalog.links@,
                self.catalog.sources@ == old(self).catalog.sources@,
                reconciled(old(self).catalog, self.catalog, entries@, created@),
                n == created@.len(),
                i <= n,
            decreases n - i,
        {
            match sql_insert_project(
                &self.conn,
                created[i].id,
                &created[i].name,
                &created[i].path,
                &created[i].notes,
            ) {
                Ok(_) => {},
                Err(e) => {
                    proof {
                        assert(reconciled(
                            old(self).catalog,
                            self.catalog,
                            entries@,
                            created@,
                        ));
                    }
                    return Err(db_err(e));
                },
            }
            i += 1;
        }
        Ok(created)
    }
}

} // verus!
