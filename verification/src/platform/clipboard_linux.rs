//! The Linux clipboard's text formats: the type list `wl-paste -l` / `xclip -t TARGETS`
//! prints, the `text/uri-list` that hands files to a file manager, and the checks that pick
//! what to read.
use crate::text::{
    chars_of, has_prefix, push_str, split_chars, split_on, spec_utf8_lossy, str_eq,
    string_from_chars, strip_prefix, trim_whitespace, trim_ws, utf8_lossy,
};
use vstd::prelude::*;

verus! {

/// The trimmed, non-empty pieces of the lines of `pieces`, in order.
pub open spec fn nonempty_trimmed(pieces: Seq<Seq<char>>) -> Seq<Seq<char>>
    decreases pieces.len(),
{
    if pieces.len() == 0 {
        Seq::empty()
    } else {
        let rest = nonempty_trimmed(pieces.drop_last());
        let t = trim_ws(pieces.last());
        if t.len() > 0 {
            rest.push(t)
        } else {
            rest
        }
    }
}

/// The clipboard's types from the tool's output: each line trimmed, blank lines dropped.
pub open spec fn spec_parse_type_list(output: Seq<u8>) -> Seq<Seq<char>> {
    nonempty_trimmed(split_on(spec_utf8_lossy(output), '\n'))
}

/// Reads the type list the clipboard tool printed.
pub fn parse_type_list(output: &[u8]) -> (r: Vec<String>)
    ensures
        r@.map_values(|s: String| s@) == spec_parse_type_list(output@),
{
    let text = utf8_lossy(output);
    let lines = split_chars(&chars_of(text.as_str()), '\n');
    let ghost pieces = split_on(text@, '\n');
    let mut out: Vec<String> = Vec::new();
    let n = lines.len();
    let mut i: usize = 0;
    while i < n
        invariant
            i <= n,
            n == lines@.len(),
            lines@.map_values(|v: Vec<char>| v@) == pieces,
            out@.map_values(|s: String| s@) == nonempty_trimmed(pieces.take(i as int)),
        decreases n - i,
    {
        assert(pieces.take(i + 1).drop_last() =~= pieces.take(i as int));
        assert(pieces.take(i + 1).last() == lines@[i as int]@);
        let t = trim_whitespace(&lines[i]);
        if t.len() > 0 {
            let ghost before = out@.map_values(|s: String| s@);
            let s = string_from_chars(t);
            out.push(s);
            assert(out@.map_values(|s: String| s@) =~= before.push(s@));
        }
        i = i + 1;
    }
    assert(pieces.take(n as int) =~= pieces);
    out
}

/// Some offered type starts with `text/uri-list` (a charset may follow).
pub open spec fn spec_offers_file_list(types: Seq<Seq<char>>) -> bool {
    exists|i: int| 0 <= i < types.len() && has_prefix(#[trigger] types[i], "text/uri-list"@)
}

/// Whether the clipboard offers a file list.
pub fn offers_file_list(types: &[String]) -> (b: bool)
    ensures
        b == spec_offers_file_list(types@.map_values(|s: String| s@)),
{
    let ghost tv = types@.map_values(|s: String| s@);
    let p = chars_of("text/uri-list");
    let n = types.len();
    let mut i: usize = 0;
    while i < n
        invariant
            i <= n,
            n == types@.len(),
            tv == types@.map_values(|s: String| s@),
            p@ == "text/uri-list"@,
            forall|k: int| 0 <= k < i ==> !has_prefix(#[trigger] tv[k], "text/uri-list"@),
        decreases n - i,
    {
        if strip_prefix(&chars_of(types[i].as_str()), &p).is_some() {
            assert(has_prefix(tv[i as int], "text/uri-list"@));
            return true;
        }
        i = i + 1;
    }
    false
}

/// Some offered type is exactly `image/png`.
pub open spec fn spec_offers_png(types: Seq<Seq<char>>) -> bool {
    exists|i: int| 0 <= i < types.len() && #[trigger] types[i] == "image/png"@
}

/// Whether the clipboard offers a PNG image.
pub fn offers_png(types: &[String]) -> (b: bool)
    ensures
        b == spec_offers_png(types@.map_values(|s: String| s@)),
{
    let ghost tv = types@.map_values(|s: String| s@);
    let n = types.len();
    let mut i: usize = 0;
    while i < n
        invariant
            i <= n,
            n == types@.len(),
            tv == types@.map_values(|s: String| s@),
            forall|k: int| 0 <= k < i ==> #[trigger] tv[k] != "image/png"@,
        decreases n - i,
    {
        if str_eq(types[i].as_str(), "image/png") {
            assert(tv[i as int] == "image/png"@);
            return true;
        }
        i = i + 1;
    }
    false
}

/// Bytes read as `image/png` are kept only when they are longer than eight bytes and start
/// like a PNG file.
pub open spec fn spec_looks_like_png(bytes: Seq<u8>) -> bool {
    bytes.len() > 8 && bytes[0] == 0x89u8 && bytes[1] == 0x50u8 && bytes[2] == 0x4Eu8 && bytes[3]
        == 0x47u8
}

pub fn looks_like_png(bytes: &[u8]) -> (b: bool)
    ensures
        b == spec_looks_like_png(bytes@),
{
    bytes.len() > 8 && bytes[0] == 0x89u8 && bytes[1] == 0x50u8 && bytes[2] == 0x4Eu8 && bytes[3]
        == 0x47u8
}

/// The `text/uri-list` of some absolute paths: `file://` and the path, each line ended by
/// CRLF.
pub open spec fn spec_file_uri_list(paths: Seq<Seq<char>>) -> Seq<char>
    decreases paths.len(),
{
    if paths.len() == 0 {
        Seq::empty()
    } else {
        spec_file_uri_list(paths.drop_last()) + "file://"@ + paths.last() + "\r\n"@
    }
}

/// Builds the `text/uri-list` handed to the clipboard for received files.
pub fn file_uri_list(paths: &[String]) -> (r: String)
    ensures
        r@ == spec_file_uri_list(paths@.map_values(|s: String| s@)),
{
    let ghost pv = paths@.map_values(|s: String| s@);
    let mut out: Vec<char> = Vec::new();
    let n = paths.len();
    let mut i: usize = 0;
    while i < n
        invariant
            i <= n,
            n == paths@.len(),
            pv == paths@.map_values(|s: String| s@),
            out@ == spec_file_uri_list(pv.take(i as int)),
        decreases n - i,
    {
        assert(pv.take(i + 1).drop_last() =~= pv.take(i as int));
        assert(pv.take(i + 1).last() == paths@[i as int]@);
        push_str(&mut out, "file://");
        push_str(&mut out, paths[i].as_str());
        push_str(&mut out, "\r\n");
        i = i + 1;
    }
    assert(pv.take(n as int) =~= pv);
    string_from_chars(out)
}

} // verus!
