//! Tests of file classification, image resolution, path utilities and the
//! settings type.
use print_manager::config::Config;
use print_manager::file::{ImageStep, ProjectFile};
use print_manager::project::{Project, ProjectTag, ProjectSource};
use print_manager::reconcile::{FsEntry, is_reserved_path, reserved_dir_component};
use print_manager::text::{base_name, contains_str, ends_with_ignore_case, parent_dir, str_eq};

fn pf(path: &str) -> ProjectFile {
    ProjectFile {
        id: 1,
        path: path.to_string(),
        notes: None,
        project_id: 1,
        default: false,
    }
}

#[test]
fn classification_by_extension() {
    assert!(pf("/a/photo.png").is_image_type());
    assert!(pf("/a/PHOTO.JPG").is_image_type());
    assert!(pf("/a/anim.jpeg").is_image_type());
    assert!(pf("/a/anim.gif").is_image_type());
    assert!(!pf("/a/photo.png.bak").is_image_type());

    assert!(pf("/a/model.stl").can_generate_to_image());
    assert!(pf("/a/MODEL.3MF").can_generate_to_image());
    assert!(!pf("/a/model.obj").can_generate_to_image());

    assert!(pf("/a/notes.txt").is_text_type());
    assert!(pf("/a/README.md").is_text_type());
    assert!(pf("/a/data.json").is_text_type());
    assert!(pf("/a/conf.toml").is_text_type());
    assert!(pf("/a/conf.yaml").is_text_type());
    assert!(pf("/a/conf.yml").is_text_type());
    assert!(pf("/a/conf.ini").is_text_type());
    assert!(!pf("/a/model.stl").is_text_type());

    assert!(pf("/a/photo.png").is_image_or_can_generate_to_image());
    assert!(pf("/a/model.stl").is_image_or_can_generate_to_image());
    assert!(!pf("/a/notes.txt").is_image_or_can_generate_to_image());
}

#[test]
fn generated_image_path_is_in_reserved_dir() {
    let f = pf("/models/Vase/vase.stl");
    assert_eq!(f.get_generated_image_path(), "/models/Vase/.3DManager/vase.stl.png");
}

#[test]
fn image_steps() {
    let image = pf("/a/photo.png");
    assert!(matches!(image.image_step(false), ImageStep::UseOwnPath));
    assert_eq!(image.get_image_path(None), "/a/photo.png");

    let model = pf("/a/model.stl");
    match model.image_step(true) {
        ImageStep::UseCached(t) => assert_eq!(t, "/a/.3DManager/model.stl.png"),
        _ => panic!("expected a cache hit"),
    }
    match model.image_step(false) {
        ImageStep::Render(t) => assert_eq!(t, "/a/.3DManager/model.stl.png"),
        _ => panic!("expected a render step"),
    }
    assert_eq!(model.get_image_path(Some("/a/.3DManager/model.stl.png".to_string())),
        "/a/.3DManager/model.stl.png");
    assert_eq!(model.get_image_path(None), "");

    let other = pf("/a/notes.txt");
    assert!(matches!(other.image_step(false), ImageStep::NoImage));
    assert_eq!(other.get_image_path(None), "");
}

#[test]
fn default_or_first_image_file() {
    let mut p = Project {
        id: 1,
        name: "P".to_string(),
        path: "/p".to_string(),
        notes: String::new(),
        files: vec![pf("/p/notes.txt"), pf("/p/model.stl"), pf("/p/photo.png")],
        tags: Vec::<ProjectTag>::new(),
        sources: Vec::<ProjectSource>::new(),
    };
    let chosen = p.get_default_or_first_image_file().expect("some file");
    assert_eq!(chosen.path, "/p/model.stl");

    p.files[2].default = true;
    let chosen2 = p.get_default_or_first_image_file().expect("some file");
    assert_eq!(chosen2.path, "/p/photo.png");

    let empty = Project {
        id: 2,
        name: "Q".to_string(),
        path: "/q".to_string(),
        notes: String::new(),
        files: vec![pf("/q/notes.txt")],
        tags: Vec::new(),
        sources: Vec::new(),
    };
    assert!(empty.get_default_or_first_image_file().is_none());
}

#[test]
fn reserved_directory_is_excluded_from_scans() {
    assert_eq!(reserved_dir_component(), ".3DManager");
    assert!(is_reserved_path("/p/.3DManager/x.png"));
    assert!(!is_reserved_path("/p/manager/x.png"));

    let p = Project {
        id: 1,
        name: "P".to_string(),
        path: "/p".to_string(),
        notes: String::new(),
        files: Vec::new(),
        tags: Vec::new(),
        sources: Vec::new(),
    };
    let tree = vec![
        FsEntry { path: "/p/a.stl".to_string(), is_dir: false },
        FsEntry { path: "/p/sub".to_string(), is_dir: true },
        FsEntry { path: "/p/sub/b.txt".to_string(), is_dir: false },
        FsEntry { path: "/p/.3DManager".to_string(), is_dir: true },
        FsEntry { path: "/p/.3DManager/a.stl.png".to_string(), is_dir: false },
    ];
    let live = p.get_file_system_files(&tree);
    assert_eq!(live, vec!["/p/a.stl".to_string(), "/p/sub/b.txt".to_string()]);
}

#[test]
fn path_utilities() {
    assert_eq!(base_name("/models/Vase"), "Vase");
    assert_eq!(base_name("plain"), "plain");
    assert_eq!(parent_dir("/models/Vase/vase.stl"), "/models/Vase");
    assert_eq!(parent_dir("plain"), "plain");
    assert!(contains_str("/p/.3DManager/x", ".3DManager"));
    assert!(!contains_str("/p/manager/x", ".3DManager"));
    assert!(contains_str("anything", ""));
    assert!(ends_with_ignore_case("photo.PNG", ".png"));
    assert!(!ends_with_ignore_case("png", ".png"));
    assert!(str_eq("abc", "abc"));
    assert!(!str_eq("abc", "abd"));
}

#[test]
fn config_paths_are_a_set() {
    let mut c = Config::new();
    assert!(c.print_path_empty_or_none());
    c.add_print_path("/models");
    c.add_print_path("/models");
    c.add_print_path("/prints");
    assert_eq!(
        c.print_paths.clone().unwrap(),
        vec!["/models".to_string(), "/prints".to_string()]
    );
    assert!(!c.print_path_empty_or_none());
    c.remove_print_path("/models");
    assert_eq!(c.print_paths.clone().unwrap(), vec!["/prints".to_string()]);
    c.remove_print_path("/prints");
    assert!(c.print_path_empty_or_none());

    c.set_theme("Nord".to_string());
    assert_eq!(c.theme, Some("Nord".to_string()));
}
