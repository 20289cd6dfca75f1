use unidrop::platform::clipboard_linux::{
    file_uri_list, looks_like_png, offers_file_list, offers_png, parse_type_list,
};

#[test]
fn type_list_lines_are_trimmed_and_blank_ones_dropped() {
    let out = b"TARGETS\r\n  image/png \n\ntext/uri-list;charset=utf-8\n";
    let types = parse_type_list(out);
    assert_eq!(types, vec!["TARGETS", "image/png", "text/uri-list;charset=utf-8"]);
    assert!(parse_type_list(b"").is_empty());
}

#[test]
fn file_lists_and_pngs_are_recognised() {
    let types = parse_type_list(b"text/uri-list;charset=utf-8\nimage/png\n");
    assert!(offers_file_list(&types));
    assert!(offers_png(&types));
    let plain = parse_type_list(b"UTF8_STRING\ntext/plain\nimage/pngx\n");
    assert!(!offers_file_list(&plain));
    assert!(!offers_png(&plain));
}

#[test]
fn png_bytes_need_the_signature_and_more_than_eight_bytes() {
    let png = [0x89u8, b'P', b'N', b'G', 0x0D, 0x0A, 0x1A, 0x0A, 0];
    assert!(looks_like_png(&png));
    assert!(!looks_like_png(&png[..8]));
    assert!(!looks_like_png(b"GIF89a-not-a-png"));
}

#[test]
fn uri_list_uses_file_scheme_and_crlf() {
    let paths = vec!["/tmp/a b.txt".to_string(), "/home/u/c.png".to_string()];
    assert_eq!(file_uri_list(&paths), "file:///tmp/a b.txt\r\nfile:///home/u/c.png\r\n");
    assert_eq!(file_uri_list(&[]), "");
}
