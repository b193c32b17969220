use batg::generated::{keep_file, needs_write};

fn path(parts: &[&str]) -> Vec<String> {
    parts.iter().map(|p| p.to_string()).collect()
}

#[test]
fn rewrites_only_changed_or_missing_files() {
    assert!(needs_write(None, "mod a;"));
    assert!(needs_write(Some("mod b;"), "mod a;"));
    assert!(!needs_write(Some("mod a;"), "mod a;"));
    assert!(needs_write(Some(""), "x"));
    assert!(!needs_write(Some(""), ""));
}

#[test]
fn keeps_exactly_the_generated_files() {
    let expected = vec![path(&["mod.rs"]), path(&["mx", "data", "excel.rs"])];
    assert!(keep_file(&path(&["mod.rs"]), &expected));
    assert!(keep_file(&path(&["mx", "data", "excel.rs"]), &expected));
    assert!(!keep_file(&path(&["mx", "data"]), &expected));
    assert!(!keep_file(&path(&["mx", "data", "excel.rs", "x"]), &expected));
    assert!(!keep_file(&path(&["stale.rs"]), &expected));
    assert!(!keep_file(&path(&["mod.rs"]), &[]));
}
