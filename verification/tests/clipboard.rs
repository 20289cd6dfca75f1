use unidrop::engine::clipboard::{
    build_preview, check_clipboard_size, precheck_file_paths, ClipboardContent, PathMeta,
    FALLBACK_IMAGE_BYTES, FALLBACK_TEXT_BYTES,
};
use unidrop::protocol::envelope::ServerLimits;
use unidrop::size_text::{human_bytes, human_size};

fn limits(single: i64, total: i64, items: i32) -> ServerLimits {
    ServerLimits {
        max_single_file_bytes: single,
        max_total_transfer_bytes: total,
        max_clipboard_image_bytes: 0,
        max_clipboard_text_bytes: 0,
        max_items_per_offer: items,
        max_concurrent_transfers: 0,
    }
}

fn file(name: &str, size: u64) -> PathMeta {
    PathMeta::File { name: Some(name.to_string()), size }
}

#[test]
fn absent_limits_do_not_reject_anything() {
    let metas = vec![file("big.bin", 4096)];
    let usable = precheck_file_paths(&metas, None).expect("no limits, no refusal");
    assert_eq!(usable.len(), 1);
}

#[test]
fn fallback_constants_are_pinned_independently() {
    assert_eq!(FALLBACK_TEXT_BYTES, 4 * 1024 * 1024);
    assert_eq!(FALLBACK_IMAGE_BYTES, 32 * 1024 * 1024);
}

#[test]
fn directories_are_skipped_and_do_not_count_toward_item_limit() {
    let metas = vec![file("a.txt", 10), PathMeta::Directory, PathMeta::Directory, file("b.txt", 10)];
    let usable = precheck_file_paths(&metas, Some(&limits(0, 0, 2))).expect("directories are free");
    assert_eq!(usable, vec![0, 3]);
}

#[test]
fn missing_paths_are_skipped() {
    let metas = vec![file("a.txt", 10), PathMeta::Unreadable];
    let usable = precheck_file_paths(&metas, Some(&limits(0, 0, 1))).expect("missing paths are free");
    assert_eq!(usable, vec![0]);
}

#[test]
fn item_count_over_limit_is_rejected_with_the_number() {
    let metas = vec![file("a.txt", 10), file("b.txt", 10), file("c.txt", 10)];
    let err = precheck_file_paths(&metas, Some(&limits(0, 0, 2))).unwrap_err();
    assert!(err.contains("无法传输"), "{err}");
    assert!(err.contains('2'), "{err}");
    assert!(err.contains('3'), "{err}");
}

#[test]
fn single_file_over_limit_names_the_file() {
    let metas = vec![file("small.txt", 10), file("huge.bin", 5000)];
    let err = precheck_file_paths(&metas, Some(&limits(1024, 0, 0))).unwrap_err();
    assert!(err.contains("huge.bin"), "{err}");
}

#[test]
fn total_over_limit_is_rejected() {
    let metas = vec![file("a.bin", 600), file("b.bin", 600)];
    let err = precheck_file_paths(&metas, Some(&limits(1024, 1000, 0))).unwrap_err();
    assert!(err.contains("总量"), "{err}");
}

#[test]
fn exactly_at_limit_passes() {
    let metas = vec![file("a.bin", 1024)];
    precheck_file_paths(&metas, Some(&limits(1024, 1024, 1))).expect("at the limit passes");
}

#[test]
fn zero_limits_mean_unlimited() {
    let metas: Vec<PathMeta> = (0..50).map(|i| file(&format!("f{i}.bin"), 2048)).collect();
    precheck_file_paths(&metas, Some(&limits(0, 0, 0))).expect("zero means unlimited");
}

#[test]
fn only_directories_yields_actionable_error() {
    let metas = vec![PathMeta::Directory];
    let err = precheck_file_paths(&metas, Some(&limits(0, 0, 0))).unwrap_err();
    assert!(err.contains("目录"), "{err}");
}

#[test]
fn human_bytes_is_readable() {
    assert_eq!(human_bytes(512), "512 B");
    assert_eq!(human_bytes(1024), "1.0 KB");
    assert_eq!(human_bytes(128 * 1024 * 1024), "128.0 MB");
}

#[test]
fn human_bytes_matches_float_formatting() {
    for n in [0i64, 1023, 1025, 1536, 10 * 1024 * 1024 + 5, 3 * 1024 * 1024 * 1024 / 2, 7_000_000_000] {
        let b = n as f64;
        let want = if b >= 1024.0 * 1024.0 * 1024.0 {
            format!("{:.2} GB", b / (1024.0 * 1024.0 * 1024.0))
        } else if b >= 1024.0 * 1024.0 {
            format!("{:.1} MB", b / (1024.0 * 1024.0))
        } else if b >= 1024.0 {
            format!("{:.1} KB", b / 1024.0)
        } else {
            format!("{} B", n)
        };
        assert_eq!(human_bytes(n), want, "n = {n}");
    }
}

#[test]
fn human_size_matches_float_formatting() {
    for n in [0i64, 5, 1024, 1500, 1024 * 1024 * 3 + 100, 5 * 1024 * 1024 * 1024 + 7] {
        let b = n as f64;
        let want = if b >= 1024.0 * 1024.0 * 1024.0 {
            format!("{:.1} GB", b / (1024.0 * 1024.0 * 1024.0))
        } else if b >= 1024.0 * 1024.0 {
            format!("{:.1} MB", b / (1024.0 * 1024.0))
        } else if b >= 1024.0 {
            format!("{:.1} KB", b / 1024.0)
        } else {
            format!("{} B", n)
        };
        assert_eq!(human_size(n), want, "n = {n}");
    }
}

#[test]
fn clipboard_size_uses_the_fallback_without_limits() {
    assert!(check_clipboard_size(false, (FALLBACK_TEXT_BYTES) as i64, None).is_ok());
    let err = check_clipboard_size(false, (FALLBACK_TEXT_BYTES + 1) as i64, None).unwrap_err();
    assert!(err.contains("文本"), "{err}");
    assert!(check_clipboard_size(true, (FALLBACK_IMAGE_BYTES + 1) as i64, None).is_err());
    let mut l = limits(0, 0, 0);
    l.max_clipboard_image_bytes = 10;
    assert!(check_clipboard_size(true, 11, Some(&l)).is_err());
    assert!(check_clipboard_size(true, 10, Some(&l)).is_ok());
}

#[test]
fn preview_of_text_is_quoted_and_cut() {
    let p = build_preview(ClipboardContent::Text("line one\nline two".to_string()));
    assert_eq!(p.kind, "TEXT");
    assert_eq!(p.summary, "“line one line two”");
    assert_eq!(p.count, 1);
    assert_eq!(p.size_bytes, 17);
    let long: String = "字".repeat(40);
    let p = build_preview(ClipboardContent::Text(long));
    assert_eq!(p.summary, format!("“{}”", "字".repeat(30)));
    assert_eq!(p.size_bytes, 120);
}

#[test]
fn preview_of_files_and_empty() {
    let p = build_preview(ClipboardContent::Files(vec!["a.txt".to_string(), "b.txt".to_string()]));
    assert_eq!(p.kind, "FILES");
    assert_eq!(p.summary, "a.txt 等 2 个文件");
    assert_eq!(p.count, 2);
    let p = build_preview(ClipboardContent::Files(vec!["only.txt".to_string()]));
    assert_eq!(p.summary, "only.txt");
    let p = build_preview(ClipboardContent::Empty);
    assert_eq!(p.kind, "EMPTY");
    assert_eq!(p.count, 0);
}

#[test]
fn preview_of_image_reads_its_dimensions() {
    let img = image::RgbaImage::new(2, 3);
    let mut png: Vec<u8> = Vec::new();
    img.write_to(&mut std::io::Cursor::new(&mut png), image::ImageFormat::Png).unwrap();
    let n = png.len();
    let p = build_preview(ClipboardContent::Image(png));
    assert_eq!(p.kind, "IMAGE");
    assert_eq!(p.summary, format!("图片 2×3 ({:.0} KB)", n as f64 / 1024.0));
    assert_eq!(p.size_bytes, n as u64);
    let p = build_preview(ClipboardContent::Image(vec![1, 2, 3]));
    assert_eq!(p.summary, "图片 (0 KB)");
}
