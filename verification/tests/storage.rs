//! End-to-end tests of the storage engine over an in-memory database.
use print_manager::file::ProjectFile;
use print_manager::reconcile::FsEntry;
use print_manager::store::DbManager;
use print_manager::error::StoreError;

fn fresh_db() -> DbManager {
    let mut db = DbManager::new(":memory:".to_string()).expect("open");
    let (current, applied) = db.run_migration().expect("migrate");
    assert_eq!(current, 0);
    assert_eq!(applied, vec![1]);
    db.load().expect("load");
    db
}

fn dir(path: &str) -> FsEntry {
    FsEntry { path: path.to_string(), is_dir: true }
}

fn file(path: &str) -> FsEntry {
    FsEntry { path: path.to_string(), is_dir: false }
}

#[test]
fn scan_creates_project_for_new_subdirectory() {
    let mut db = fresh_db();
    let entries = vec![dir("/models/Vase"), file("/models/readme.txt")];
    let created = db.scan_project_dir(&entries).expect("scan");
    assert_eq!(created.len(), 1);
    assert_eq!(created[0].name, "Vase");
    assert_eq!(created[0].path, "/models/Vase");
    assert!(db.does_project_with_path_exist("/models/Vase".to_string()));
    assert!(!db.does_project_with_path_exist("/models/readme.txt".to_string()));
}

#[test]
fn rescan_creates_nothing() {
    let mut db = fresh_db();
    let entries = vec![dir("/models/Vase"), dir("/models/Benchy")];
    let first = db.scan_project_dir(&entries).expect("scan");
    assert_eq!(first.len(), 2);
    let second = db.scan_project_dir(&entries).expect("rescan");
    assert_eq!(second.len(), 0);
}

#[test]
fn file_sync_matches_live_set() {
    let mut db = fresh_db();
    let created = db.scan_project_dir(&vec![dir("/models/Vase")]).expect("scan");
    let project = &created[0];
    let live = vec![
        "/models/Vase/a.stl".to_string(),
        "/models/Vase/b.png".to_string(),
        "/models/Vase/c.txt".to_string(),
    ];
    let rep = db.update_project_files(project, live).expect("sync");
    assert_eq!(rep.added.len(), 3);
    assert_eq!(rep.removed.len(), 0);
    let loaded = db.get_project(project.id).expect("get");
    let mut paths: Vec<String> = loaded.files.iter().map(|f| f.path.clone()).collect();
    paths.sort();
    assert_eq!(
        paths,
        vec![
            "/models/Vase/a.stl".to_string(),
            "/models/Vase/b.png".to_string(),
            "/models/Vase/c.txt".to_string(),
        ]
    );
    let kept_id = loaded.files.iter().find(|f| f.path.ends_with("b.png")).unwrap().id;

    let live2 = vec!["/models/Vase/b.png".to_string(), "/models/Vase/d.3mf".to_string()];
    let rep2 = db.update_project_files(project, live2).expect("resync");
    assert_eq!(rep2.added.len(), 1);
    assert_eq!(rep2.removed.len(), 2);
    let loaded2 = db.get_project(project.id).expect("get");
    let mut paths2: Vec<String> = loaded2.files.iter().map(|f| f.path.clone()).collect();
    paths2.sort();
    assert_eq!(
        paths2,
        vec!["/models/Vase/b.png".to_string(), "/models/Vase/d.3mf".to_string()]
    );
    let kept = loaded2.files.iter().find(|f| f.path.ends_with("b.png")).unwrap();
    assert_eq!(kept.id, kept_id);
}

#[test]
fn file_sync_is_idempotent() {
    let mut db = fresh_db();
    let created = db.scan_project_dir(&vec![dir("/p/A")]).expect("scan");
    let project = &created[0];
    let live = vec!["/p/A/x.stl".to_string(), "/p/A/y.txt".to_string()];
    let rep1 = db.update_project_files(project, live.clone()).expect("sync");
    assert_eq!(rep1.added.len(), 2);
    let rep2 = db.update_project_files(project, live).expect("resync");
    assert_eq!(rep2.added.len(), 0);
    assert_eq!(rep2.removed.len(), 0);
}

#[test]
fn setting_default_clears_others() {
    let mut db = fresh_db();
    let created = db.scan_project_dir(&vec![dir("/p/A")]).expect("scan");
    let project = &created[0];
    let live = vec!["/p/A/x.stl".to_string(), "/p/A/y.png".to_string()];
    db.update_project_files(project, live).expect("sync");
    let loaded = db.get_project(project.id).expect("get");
    let x = loaded.files.iter().find(|f| f.path.ends_with("x.stl")).unwrap().clone();
    let y = loaded.files.iter().find(|f| f.path.ends_with("y.png")).unwrap().clone();

    let mut want_x = x.clone();
    want_x.default = true;
    db.update_project_file(&want_x).expect("set default x");
    let after_x = db.get_project(project.id).expect("get");
    for f in &after_x.files {
        assert_eq!(f.default, f.id == x.id);
    }

    let mut want_y = y.clone();
    want_y.default = true;
    db.update_project_file(&want_y).expect("set default y");
    let after_y = db.get_project(project.id).expect("get");
    for f in &after_y.files {
        assert_eq!(f.default, f.id == y.id);
    }
}

#[test]
fn get_or_create_tag_twice_same_identity() {
    let mut db = fresh_db();
    let first = db.get_or_create_tag("foo".to_string()).expect("create");
    let second = db.get_or_create_tag("foo".to_string()).expect("lookup");
    assert_eq!(first.id, second.id);
    assert_eq!(first.tag, "foo");
    assert_eq!(db.list_all_tags().len(), 1);
}

#[test]
fn tag_filter_requires_all_tags() {
    let mut db = fresh_db();
    let created = db
        .scan_project_dir(&vec![dir("/p/Both"), dir("/p/OnlyA")])
        .expect("scan");
    let both = created.iter().find(|p| p.name == "Both").unwrap().id;
    let only_a = created.iter().find(|p| p.name == "OnlyA").unwrap().id;
    db.add_tag_to_project(both, "A".to_string()).expect("tag");
    db.add_tag_to_project(both, "B".to_string()).expect("tag");
    db.add_tag_to_project(only_a, "A".to_string()).expect("tag");
    let tags = db.list_all_tags();
    let a = tags.iter().find(|t| t.tag == "A").unwrap().clone();
    let b = tags.iter().find(|t| t.tag == "B").unwrap().clone();

    let hits = db
        .get_filtered_projects(None, None, Some(vec![a.clone(), b.clone()]))
        .expect("query");
    assert_eq!(hits.len(), 1);
    assert_eq!(hits[0].name, "Both");

    let hits_a = db.get_filtered_projects(None, None, Some(vec![a])).expect("query");
    assert_eq!(hits_a.len(), 2);
}

#[test]
fn tagging_twice_adds_one_association() {
    let mut db = fresh_db();
    let created = db.scan_project_dir(&vec![dir("/p/A")]).expect("scan");
    let pid = created[0].id;
    let p1 = db.add_tag_to_project(pid, "Printed".to_string()).expect("tag");
    assert_eq!(p1.tags.len(), 1);
    let p2 = db.add_tag_to_project(pid, "Printed".to_string()).expect("retag");
    assert_eq!(p2.tags.len(), 1);
    assert_eq!(db.list_all_tags().len(), 1);
}

#[test]
fn removed_tag_row_survives() {
    let mut db = fresh_db();
    let created = db.scan_project_dir(&vec![dir("/p/A"), dir("/p/B")]).expect("scan");
    let pa = created[0].id;
    let pb = created[1].id;
    let tagged = db.add_tag_to_project(pa, "Printed".to_string()).expect("tag");
    assert_eq!(tagged.tags.len(), 1);
    let printed = tagged.tags[0].clone();

    let untagged = db.remove_tag_from_project(pa, &printed).expect("untag");
    assert_eq!(untagged.tags.len(), 0);
    let tags = db.list_all_tags();
    assert_eq!(tags.len(), 1);
    assert_eq!(tags[0].tag, "Printed");

    let other = db.add_tag_to_project(pb, "Printed".to_string()).expect("reuse");
    assert_eq!(other.tags.len(), 1);
    assert_eq!(other.tags[0].id, printed.id);
}

#[test]
fn name_filter_is_substring_match() {
    let mut db = fresh_db();
    db.scan_project_dir(&vec![dir("/p/BigVase"), dir("/p/Benchy")]).expect("scan");
    let hits = db
        .get_filtered_projects(Some("Vase".to_string()), None, None)
        .expect("query");
    assert_eq!(hits.len(), 1);
    assert_eq!(hits[0].name, "BigVase");
    let all = db.get_filtered_projects(None, None, None).expect("query");
    assert_eq!(all.len(), 2);
}

#[test]
fn get_project_not_found_is_recoverable() {
    let db = fresh_db();
    match db.get_project(42) {
        Err(StoreError::NotFound) => {},
        _ => panic!("expected a NotFound error"),
    }
}

#[test]
fn duplicate_path_is_refused() {
    let mut db = fresh_db();
    let created = db.scan_project_dir(&vec![dir("/p/A")]).expect("scan");
    let blueprint = print_manager::project::Project {
        id: 0,
        name: "Again".to_string(),
        path: "/p/A".to_string(),
        notes: String::new(),
        files: Vec::new(),
        tags: Vec::new(),
        sources: Vec::new(),
    };
    match db.create_project(blueprint) {
        Err(StoreError::Duplicate) => {},
        _ => panic!("expected a Duplicate error"),
    }
    let _ = created;
}

#[test]
fn update_project_persists_name_and_notes() {
    let mut db = fresh_db();
    let created = db.scan_project_dir(&vec![dir("/p/A")]).expect("scan");
    let mut project = created[0].clone();
    project.name = "Renamed".to_string();
    project.notes = "some notes".to_string();
    let updated = db.update_project(&project).expect("update");
    assert_eq!(updated.name, "Renamed");
    assert_eq!(updated.notes, "some notes");
    let loaded = db.get_project(project.id).expect("get");
    assert_eq!(loaded.name, "Renamed");
}

#[test]
fn add_source_appends() {
    let mut db = fresh_db();
    let created = db.scan_project_dir(&vec![dir("/p/A")]).expect("scan");
    let pid = created[0].id;
    let p = db
        .add_source(pid, "page".to_string(), "https://example.com/vase".to_string())
        .expect("source");
    assert_eq!(p.sources.len(), 1);
    assert_eq!(p.sources[0].name, "page");
    assert_eq!(p.sources[0].url, "https://example.com/vase");
}

#[test]
fn second_migration_run_applies_nothing() {
    let db = DbManager::new(":memory:".to_string()).expect("open");
    let (c1, a1) = db.run_migration().expect("migrate");
    assert_eq!((c1, a1), (0, vec![1]));
    let (c2, a2) = db.run_migration().expect("remigrate");
    assert_eq!(c2, 1);
    assert_eq!(a2, Vec::<i64>::new());
}

#[test]
fn load_rebuilds_catalog_from_rows() {
    let mut db = fresh_db();
    let created = db.scan_project_dir(&vec![dir("/p/A")]).expect("scan");
    let project = &created[0];
    db.update_project_files(project, vec!["/p/A/m.stl".to_string()]).expect("sync");
    db.add_tag_to_project(project.id, "nice".to_string()).expect("tag");
    db.add_source(project.id, "src".to_string(), "http://x".to_string()).expect("source");

    db.load().expect("reload");
    let loaded = db.get_project(project.id).expect("get");
    assert_eq!(loaded.name, "A");
    assert_eq!(loaded.files.len(), 1);
    assert_eq!(loaded.files[0].path, "/p/A/m.stl");
    assert_eq!(loaded.tags.len(), 1);
    assert_eq!(loaded.tags[0].tag, "nice");
    assert_eq!(loaded.sources.len(), 1);
}

#[test]
fn vase_scenario() {
    let mut db = fresh_db();
    let roots = vec![dir("/models/Vase")];
    let created = db.scan_project_dir(&roots).expect("scan");
    assert_eq!(created.len(), 1);
    let project = created[0].clone();
    assert_eq!(project.name, "Vase");
    assert_eq!(project.path, "/models/Vase");

    // the project's tree: the model file, plus the cached thumbnail inside
    // the reserved directory, which is not project content
    let tree = vec![
        file("/models/Vase/vase.stl"),
        dir("/models/Vase/.3DManager"),
        file("/models/Vase/.3DManager/vase.stl.png"),
    ];
    let live = project.get_file_system_files(&tree);
    assert_eq!(live, vec!["/models/Vase/vase.stl".to_string()]);

    db.update_project_files(&project, live).expect("sync");
    let loaded = db.get_project(project.id).expect("get");
    assert_eq!(loaded.files.len(), 1);
    let vase = loaded.files[0].clone();
    assert_eq!(vase.path, "/models/Vase/vase.stl");

    assert!(vase.can_generate_to_image());
    assert!(!vase.is_text_type());
    assert!(!vase.is_image_type());

    // no cached thumbnail yet: the renderer must be invoked, once, for the
    // cache path; on success the generated path is the image shown
    match vase.image_step(false) {
        print_manager::file::ImageStep::Render(target) => {
            assert_eq!(target, "/models/Vase/.3DManager/vase.stl.png");
            let shown = vase.get_image_path(Some(target.clone()));
            assert_eq!(shown, target);
        },
        _ => panic!("expected a render step"),
    }
    // once the cache holds the thumbnail, it is reused without rendering
    match vase.image_step(true) {
        print_manager::file::ImageStep::UseCached(target) => {
            assert_eq!(target, "/models/Vase/.3DManager/vase.stl.png");
        },
        _ => panic!("expected a cache hit"),
    }
}

#[test]
fn renaming_file_to_taken_path_is_refused() {
    let mut db = fresh_db();
    let created = db.scan_project_dir(&vec![dir("/p/A")]).expect("scan");
    let project = &created[0];
    let live = vec!["/p/A/x.stl".to_string(), "/p/A/y.png".to_string()];
    db.update_project_files(project, live).expect("sync");
    let loaded = db.get_project(project.id).expect("get");
    let mut x = loaded.files.iter().find(|f| f.path.ends_with("x.stl")).unwrap().clone();
    x.path = "/p/A/y.png".to_string();
    match db.update_project_file(&x) {
        Err(StoreError::Duplicate) => {},
        _ => panic!("expected a Duplicate error"),
    }
    let mut missing = ProjectFile {
        id: 99999,
        path: "/p/A/z.txt".to_string(),
        notes: None,
        project_id: project.id,
        default: false,
    };
    missing.notes = Some("n".to_string());
    match db.update_project_file(&missing) {
        Err(StoreError::NotFound) => {},
        _ => panic!("expected a NotFound error"),
    }
}

#[test]
fn results_and_files_and_tags_are_ordered() {
    let mut db = fresh_db();
    db.scan_project_dir(&vec![dir("/p/Zebra"), dir("/p/Apple"), dir("/p/Mango")])
        .expect("scan");
    let all = db.get_filtered_projects(None, None, None).expect("query");
    let names: Vec<String> = all.iter().map(|p| p.name.clone()).collect();
    assert_eq!(
        names,
        vec!["Apple".to_string(), "Mango".to_string(), "Zebra".to_string()]
    );

    let apple = all[0].clone();
    let live = vec![
        "/p/Apple/c.txt".to_string(),
        "/p/Apple/a.stl".to_string(),
        "/p/Apple/b.png".to_string(),
    ];
    db.update_project_files(&apple, live).expect("sync");
    let loaded = db.get_project(apple.id).expect("get");
    let paths: Vec<String> = loaded.files.iter().map(|f| f.path.clone()).collect();
    assert_eq!(
        paths,
        vec![
            "/p/Apple/a.stl".to_string(),
            "/p/Apple/b.png".to_string(),
            "/p/Apple/c.txt".to_string(),
        ]
    );

    db.get_or_create_tag("zeta".to_string()).expect("tag");
    db.get_or_create_tag("alpha".to_string()).expect("tag");
    let tags: Vec<String> = db.list_all_tags().iter().map(|t| t.tag.clone()).collect();
    assert_eq!(tags, vec!["alpha".to_string(), "zeta".to_string()]);
}

#[test]
fn renaming_project_to_taken_path_is_refused() {
    let mut db = fresh_db();
    let created = db.scan_project_dir(&vec![dir("/p/A"), dir("/p/B")]).expect("scan");
    let mut a = created.iter().find(|p| p.name == "A").unwrap().clone();
    a.path = "/p/B".to_string();
    match db.update_project(&a) {
        Err(StoreError::Duplicate) => {},
        _ => panic!("expected a Duplicate error"),
    }
    let still = db.get_project(a.id).expect("get");
    assert_eq!(still.path, "/p/A");
}
