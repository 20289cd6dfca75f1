use std::path::PathBuf;
use unidrop::engine::save_names::numbered_name;

/// The name the copy would get, computed with std's path functions.
fn by_std_path(file_name: &str, n: u32) -> String {
    let as_path = PathBuf::from(file_name);
    let stem = as_path
        .file_stem()
        .map(|s| s.to_string_lossy().to_string())
        .unwrap_or_else(|| file_name.to_string());
    let ext = as_path.extension().map(|s| s.to_string_lossy().to_string()).unwrap_or_default();
    if ext.is_empty() {
        format!("{} ({})", stem, n)
    } else {
        format!("{} ({}).{}", stem, n, ext)
    }
}

#[test]
fn numbered_names_put_the_counter_before_the_extension() {
    assert_eq!(numbered_name("report.pdf", 1), "report (1).pdf");
    assert_eq!(numbered_name("archive.tar.gz", 2), "archive.tar (2).gz");
    assert_eq!(numbered_name(".bashrc", 3), ".bashrc (3)");
    assert_eq!(numbered_name("noext", 10), "noext (10)");
}

#[test]
fn numbered_names_agree_with_path_stem_and_extension() {
    for name in ["report.pdf", "archive.tar.gz", ".bashrc", "noext", "trailing.", ".x.y", "图片.png", "a b.c d"] {
        for n in [1u32, 7, 123] {
            assert_eq!(numbered_name(name, n), by_std_path(name, n), "{name} / {n}");
        }
    }
}
