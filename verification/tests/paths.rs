use stellaris_hunter_scan::paths::{
    candidate_paths, dedupe_paths, documents_default_candidates, install_candidates,
    forward_slash_text, kept_components, normalize_path, windows_path_to_wsl_mount, PartKind,
};
use std::path::PathBuf;

fn path_text(p: PathBuf) -> String {
    p.to_string_lossy().into_owned()
}

#[test]
fn converts_windows_path_to_wsl_mount() {
    assert_eq!(
        windows_path_to_wsl_mount(r"C:\Users\Arjun\OneDrive"),
        Some("/mnt/c/Users/Arjun/OneDrive".to_string())
    );
    assert_eq!(
        windows_path_to_wsl_mount(r"D:\Docs"),
        Some("/mnt/d/Docs".to_string())
    );
    assert_eq!(windows_path_to_wsl_mount("/mnt/c/Users/Arjun"), None);
}

#[test]
fn includes_userprofile_and_onedrive_documents_candidates() {
    let candidates = documents_default_candidates(
        Some("Arjun"),
        Some(r"C:\Users\Arjun"),
        Some(r"C:\Users\Arjun\OneDrive"),
    );

    let expected_userprofile = PathBuf::from(r"C:\Users\Arjun")
        .join("Documents")
        .join("Paradox Interactive")
        .join("Stellaris");
    assert!(candidates.contains(&path_text(expected_userprofile)));
    assert!(candidates.contains(&path_text(PathBuf::from(
        "/mnt/c/Users/Arjun/Documents/Paradox Interactive/Stellaris"
    ))));
    let expected_onedrive = PathBuf::from(r"C:\Users\Arjun\OneDrive")
        .join("Documents")
        .join("Paradox Interactive")
        .join("Stellaris");
    assert!(candidates.contains(&path_text(expected_onedrive)));
    assert!(candidates.contains(&path_text(PathBuf::from(
        "/mnt/c/Users/Arjun/OneDrive/Documents/Paradox Interactive/Stellaris"
    ))));
}

#[test]
fn candidate_paths_keep_the_first_of_equal_paths() {
    let paths = vec!["/a".to_string(), "/b".to_string(), "/a".to_string()];
    assert_eq!(dedupe_paths(paths), vec!["/a", "/b"]);
    let candidates = candidate_paths(
        Some("/explicit".to_string()),
        vec!["  ".to_string(), "/env".to_string()],
        vec!["/default".to_string(), "/env".to_string()],
    );
    assert_eq!(candidates, vec!["/explicit", "/env", "/default"]);
    let install = install_candidates(None, vec![]);
    assert_eq!(install[0], r"C:\Program Files (x86)\Steam\steamapps\common\Stellaris");
    assert_eq!(install.len(), 6);
}

#[test]
fn normalize_path_drops_dots_and_applies_parents() {
    assert_eq!(normalize_path("/a/./b/../c"), "/a/c");
    assert_eq!(normalize_path("/saves/run_1/./ironman.sav"), "/saves/run_1/ironman.sav");
    assert_eq!(normalize_path("a/../../b"), "b");
    assert_eq!(normalize_path("/.."), "/");
    assert_eq!(normalize_path("/a/b/"), "/a/b");
    assert_eq!(normalize_path(""), "");
    assert_eq!(normalize_path("C:\\saves\\run"), "C:/saves/run");
}

#[test]
fn dedupe_paths_keeps_one_of_each_text() {
    let ps: Vec<String> = ["a", "a", "/b", "/b/", "c"].iter().map(|s| s.to_string()).collect();
    assert_eq!(dedupe_paths(ps), vec!["a", "/b", "c"]);
}

#[test]
fn normalize_path_of_run_folders() {
    assert_eq!(normalize_path("/tmp/other/../run_a"), "/tmp/run_a");
    assert_eq!(normalize_path("/tmp/./run_a"), "/tmp/run_a");
    for p in ["/tmp/other/../run_a", "/tmp/./run_a", "a/./b/../../c", "/x/y/z/.."] {
        let once = normalize_path(p);
        assert_eq!(normalize_path(&once), once);
        assert!(!once.split('/').any(|c| c == "." || c == ".."), "{once}");
    }
}

#[test]
fn kept_components_apply_dots() {
    let part = |k: PartKind, t: &str| (k, t.to_string());
    let parts = vec![
        part(PartKind::RootDir, "/"),
        part(PartKind::ParentDir, ".."),
        part(PartKind::Normal, "a"),
        part(PartKind::CurDir, "."),
        part(PartKind::Normal, "b"),
        part(PartKind::ParentDir, ".."),
        part(PartKind::Normal, "c"),
    ];
    let kept = kept_components(&parts);
    assert_eq!(kept, vec![part(PartKind::RootDir, "/"), part(PartKind::Normal, "a"), part(PartKind::Normal, "c")]);
    assert_eq!(forward_slash_text("C:\\a\\b"), "C:/a/b");
}
