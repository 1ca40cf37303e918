use proofsheet::scan::{discover, FoundFile, ScanError, AssetKind, classify};

fn file(path: &str, name: &str, components: &[&str]) -> FoundFile {
    FoundFile {
        path: path.to_string(),
        name: name.to_string(),
        components: components.iter().map(|c| c.to_string()).collect(),
    }
}

#[test]
fn natural_sort_governs_discovery_order() {
    let entries = vec![
        file("/in/a2.jpg", "a2.jpg", &["a2.jpg"]),
        file("/in/a10.jpg", "a10.jpg", &["a10.jpg"]),
        file("/in/a1.jpg", "a1.jpg", &["a1.jpg"]),
    ];
    let found = discover(true, &entries).unwrap();
    let names: Vec<&str> = found.iter().map(|d| d.name.as_str()).collect();
    assert_eq!(names, ["a1.jpg", "a2.jpg", "a10.jpg"]);
    for (k, d) in found.iter().enumerate() {
        assert_eq!(d.index, k);
    }
}

#[test]
fn classification_is_case_insensitive_and_closed() {
    assert_eq!(classify("jpg"), Some(AssetKind::Image));
    assert_eq!(classify("JPEG"), Some(AssetKind::Image));
    assert_eq!(classify("Png"), Some(AssetKind::Image));
    assert_eq!(classify("tiff"), Some(AssetKind::Image));
    assert_eq!(classify("tif"), Some(AssetKind::Image));
    assert_eq!(classify("webp"), Some(AssetKind::Image));
    assert_eq!(classify("mp4"), Some(AssetKind::Video));
    assert_eq!(classify("MOV"), Some(AssetKind::Video));
    assert_eq!(classify("mxf"), Some(AssetKind::Video));
    assert_eq!(classify("txt"), None);
    assert_eq!(classify("pdf"), None);
    assert_eq!(classify(""), None);
}

#[test]
fn hidden_entries_and_unsupported_extensions_are_skipped() {
    let entries = vec![
        file("/in/.secret.jpg", ".secret.jpg", &[".secret.jpg"]),
        file("/in/.cache/b.jpg", "b.jpg", &[".cache", "b.jpg"]),
        file("/in/notes.txt", "notes.txt", &["notes.txt"]),
        file("/in/ok.png", "ok.png", &["ok.png"]),
    ];
    let found = discover(true, &entries).unwrap();
    assert_eq!(found.len(), 1);
    assert_eq!(found[0].name, "ok.png");
    assert_eq!(found[0].kind, AssetKind::Image);
}

#[test]
fn only_unsupported_extensions_is_a_fatal_empty_result() {
    let entries = vec![
        file("/in/a.txt", "a.txt", &["a.txt"]),
        file("/in/b.pdf", "b.pdf", &["b.pdf"]),
    ];
    assert_eq!(discover(true, &entries).unwrap_err(), ScanError::NoSupportedAssets);
}

#[test]
fn empty_directory_is_a_fatal_empty_result() {
    let entries: Vec<FoundFile> = Vec::new();
    assert_eq!(discover(true, &entries).unwrap_err(), ScanError::NoSupportedAssets);
}

#[test]
fn a_missing_directory_fails_before_anything_else() {
    let entries = vec![file("/in/a.jpg", "a.jpg", &["a.jpg"])];
    assert_eq!(discover(false, &entries).unwrap_err(), ScanError::NotADirectory);
}

#[test]
fn ties_on_name_break_by_full_path() {
    let entries = vec![
        file("/in/b/pic.jpg", "pic.jpg", &["b", "pic.jpg"]),
        file("/in/a/pic.jpg", "pic.jpg", &["a", "pic.jpg"]),
    ];
    let found = discover(true, &entries).unwrap();
    assert_eq!(found[0].path, "/in/a/pic.jpg");
    assert_eq!(found[1].path, "/in/b/pic.jpg");
}

#[test]
fn files_without_extension_are_excluded() {
    let entries = vec![
        file("/in/README", "README", &["README"]),
        file("/in/jpg", "jpg", &["jpg"]),
    ];
    assert_eq!(discover(true, &entries).unwrap_err(), ScanError::NoSupportedAssets);
}
