use print_ui::app_state::{Params, ViewCore, ViewState, Workspace};
use print_ui::delegate::{Delegate, SaveAction};
use print_ui::edit_view::EditView;
use print_ui::file_tree::{sort_entries, FileEntry};
use print_ui::text_count::count;
use print_ui::theme_color::{color_from_u32, u32_from_color, RgbaColor};

#[test]
fn from_path_reads_name_and_extension() {
    let e = FileEntry::from_path("src/print/watcher.rs".to_string());
    assert_eq!(e.name, "watcher.rs");
    assert_eq!(e.ext, "rs");
    assert_eq!(e.path, "src/print/watcher.rs");
    assert!(!e.is_dir);
    assert_eq!(e.children_count(), 0);
}

#[test]
fn from_path_without_extension_or_separator() {
    let e = FileEntry::from_path("Makefile".to_string());
    assert_eq!(e.name, "Makefile");
    assert_eq!(e.ext, "");
    let e = FileEntry::from_path("a.tar.gz".to_string());
    assert_eq!(e.ext, "gz");
}

#[test]
fn leading_dot_names_have_no_extension() {
    let e = FileEntry::from_path("/home/u/.bashrc".to_string());
    assert_eq!(e.name, ".bashrc");
    assert_eq!(e.ext, "");
    let e = FileEntry::from_path(".config.toml".to_string());
    assert_eq!(e.name, ".config.toml");
    assert_eq!(e.ext, "toml");
}

#[test]
fn trailing_separators_do_not_hide_the_name() {
    let e = FileEntry::from_path("a/b/".to_string());
    assert_eq!(e.name, "b");
    assert_eq!(e.path, "a/b/");
}

#[test]
fn add_child_appends() {
    let root = FileEntry::new("project".to_string());
    let root = root.add_child(FileEntry::new("src".to_string()));
    let root = root.add_child(FileEntry::new("tests".to_string()));
    assert_eq!(root.children_count(), 2);
    assert_eq!(root.children[0].name, "src");
    assert_eq!(root.children[1].name, "tests");
}

#[test]
fn from_dir_wraps_entries() {
    let entries = vec![FileEntry::new("a".to_string()), FileEntry::new("b".to_string())];
    let root = FileEntry::from_dir("proj".to_string(), entries);
    assert_eq!(root.name, "proj");
    assert_eq!(root.children_count(), 2);
}

#[test]
fn hidden_entries() {
    assert!(FileEntry::is_hidden(&".git".to_string(), true));
    assert!(!FileEntry::is_hidden(&"src".to_string(), true));
    assert!(FileEntry::is_hidden(&".DS_Store".to_string(), false));
    assert!(!FileEntry::is_hidden(&".gitignore".to_string(), false));
}

#[test]
fn entries_sort_by_name() {
    let entries = vec![
        FileEntry::new("zeta".to_string()),
        FileEntry::new("alpha".to_string()),
        FileEntry::new("midway".to_string()),
    ];
    let sorted = sort_entries(entries);
    let names: Vec<&str> = sorted.iter().map(|e| e.name.as_str()).collect();
    assert_eq!(names, vec!["alpha", "midway", "zeta"]);
}

#[test]
fn relative_path_breadcrumbs() {
    let mut w = Workspace::default();
    w.project = "print".to_string();
    w.dir = "/home/u/print".to_string();
    w.current_file = "/home/u/print/src/main.rs".to_string();
    assert_eq!(w.relative_path(), "print > src > main.rs");
}

#[test]
fn relative_path_skips_doubled_separators() {
    let mut w = Workspace::default();
    w.project = "p".to_string();
    w.dir = "/a".to_string();
    w.current_file = "/a//b".to_string();
    assert_eq!(w.relative_path(), "p > b");
}

#[test]
fn relative_path_outside_project() {
    let mut w = Workspace::default();
    w.project = "print".to_string();
    w.dir = "/home/u/print".to_string();
    w.current_file = "/etc/hosts".to_string();
    assert_eq!(w.relative_path(), "print");
}

#[test]
fn relative_path_of_project_root_is_the_project() {
    let mut w = Workspace::default();
    w.project = "print".to_string();
    w.dir = "/home/u/print".to_string();
    w.current_file = "/home/u/print".to_string();
    assert_eq!(w.relative_path(), "print");
}

#[test]
fn defaults_are_empty() {
    let w = Workspace::default();
    assert_eq!(w.project, "");
    assert_eq!(w.char_count, 0);
    let p = Params::default();
    assert!(!p.debug_layout);
    let v = ViewCore::default();
    assert!(v.focused.is_none());
    assert_eq!(v.views.len(), 0);
    let _ = EditView::new();
}

#[test]
fn view_core_same_compares_focus_and_count() {
    let mut a = ViewCore::default();
    let mut b = ViewCore::default();
    assert!(a.same(&b));
    a.focused = Some(b"v1".to_vec());
    assert!(!a.same(&b));
    b.focused = Some(b"v1".to_vec());
    assert!(a.same(&b));
    a.views.push((b"v1".to_vec(), ViewState { id: 0, filename: None }));
    assert!(!a.same(&b));
}

#[test]
fn save_decision() {
    assert!(matches!(
        Delegate::save_file(&None, &"x".to_string(), &"y".to_string()),
        SaveAction::NoFile
    ));
    assert!(matches!(
        Delegate::save_file(&Some("/f".to_string()), &"x".to_string(), &"x".to_string()),
        SaveAction::Unchanged
    ));
    match Delegate::save_file(&Some("/f".to_string()), &"new".to_string(), &"old".to_string()) {
        SaveAction::Write(p) => assert_eq!(p, "/f"),
        other => panic!("expected a write, got {:?}", other),
    }
}

#[test]
fn color_packing_round_trips() {
    let c = RgbaColor { r: 0x12, g: 0x34, b: 0x56, a: 0xff };
    let packed = u32_from_color(c);
    assert_eq!(packed, 0xff123456);
    assert_eq!(color_from_u32(packed), c);
    assert_eq!(
        color_from_u32(0x01020304),
        RgbaColor { r: 0x02, g: 0x03, b: 0x04, a: 0x01 }
    );
}

#[test]
fn word_count_counts_words() {
    assert_eq!(count(&"hello world".to_string()), 2);
    assert_eq!(count(&"".to_string()), 0);
    assert_eq!(count(&"  \n\nних два\nodin\n".to_string()), 3);
    assert_eq!(count(&"a [link](http://example.com) b".to_string()), 3);
    assert_eq!(count(&"tabs\tand   spaces".to_string()), 3);
}

#[test]
fn entries_look_the_same_by_name_and_children() {
    let a = FileEntry::new("src".to_string()).add_child(FileEntry::new("a.rs".to_string()));
    let b = FileEntry::new("src".to_string()).add_child(FileEntry::new("a.rs".to_string()));
    assert!(a.same(&b));
    let c = FileEntry::new("src".to_string()).add_child(FileEntry::new("b.rs".to_string()));
    assert!(!a.same(&c));
    let d = FileEntry::default();
    assert_eq!(d.name, "");
    assert!(!d.is_dir);
}
